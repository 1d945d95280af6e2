//! The stone model: the finite color and symbol domains and the stones
//! (color, symbol pairs) that are placed on the board.

use vstd::prelude::*;

verus! {

/// One of the six stone colors. Colors are compared for equality only.
#[derive(Copy, Clone, Debug, PartialEq, Eq, Structural)]
pub enum Color {
    Blue,
    Green,
    Orange,
    Pink,
    Red,
    White,
}

/// One of the six stone symbols. Symbols are compared for equality only.
#[derive(Copy, Clone, Debug, PartialEq, Eq, Structural)]
pub enum Symbol {
    And,
    Carrot,
    Equals,
    Hash,
    Line,
    Star,
}

/// A stone: an immutable (color, symbol) pair. 36 distinct combinations
/// exist; the supply holds exactly two copies of each.
#[derive(Copy, Clone, Debug, PartialEq, Eq, Structural)]
pub struct Stone {
    pub color: Color,
    pub symbol: Symbol,
}

/// A fixed numbering of the colors, used to enumerate all 36 combinations.
pub open spec fn color_index(c: Color) -> int {
    match c {
        Color::Blue => 0,
        Color::Green => 1,
        Color::Orange => 2,
        Color::Pink => 3,
        Color::Red => 4,
        Color::White => 5,
    }
}

/// A fixed numbering of the symbols, used to enumerate all 36 combinations.
pub open spec fn symbol_index(s: Symbol) -> int {
    match s {
        Symbol::And => 0,
        Symbol::Carrot => 1,
        Symbol::Equals => 2,
        Symbol::Hash => 3,
        Symbol::Line => 4,
        Symbol::Star => 5,
    }
}

/// Inverse of `color_index`.
pub open spec fn color_of_index(i: int) -> Color {
    if i == 0 {
        Color::Blue
    } else if i == 1 {
        Color::Green
    } else if i == 2 {
        Color::Orange
    } else if i == 3 {
        Color::Pink
    } else if i == 4 {
        Color::Red
    } else {
        Color::White
    }
}

/// Inverse of `symbol_index`.
pub open spec fn symbol_of_index(i: int) -> Symbol {
    if i == 0 {
        Symbol::And
    } else if i == 1 {
        Symbol::Carrot
    } else if i == 2 {
        Symbol::Equals
    } else if i == 3 {
        Symbol::Hash
    } else if i == 4 {
        Symbol::Line
    } else {
        Symbol::Star
    }
}

/// A fixed numbering of the 36 (color, symbol) combinations.
pub open spec fn combo_index(s: Stone) -> int {
    color_index(s.color) * 6 + symbol_index(s.symbol)
}

/// The combination numbering covers exactly 0..36.
pub proof fn lemma_combo_index_range(s: Stone)
    ensures
        0 <= combo_index(s) < 36,
{
}

/// Distinct stones get distinct combination numbers.
pub proof fn lemma_combo_index_injective(a: Stone, b: Stone)
    requires
        combo_index(a) == combo_index(b),
    ensures
        a == b,
{
    assert(0 <= symbol_index(a.symbol) < 6);
    assert(0 <= symbol_index(b.symbol) < 6);
    assert(color_index(a.color) == color_index(b.color));
    assert(symbol_index(a.symbol) == symbol_index(b.symbol));
    assert(a.color == b.color);
    assert(a.symbol == b.symbol);
}

/// The one-character glyph that renders a symbol.
pub open spec fn symbol_glyph(s: Symbol) -> Seq<char> {
    match s {
        Symbol::And => "&"@,
        Symbol::Carrot => "^"@,
        Symbol::Equals => "="@,
        Symbol::Hash => "#"@,
        Symbol::Line => "|"@,
        Symbol::Star => "*"@,
    }
}

impl Symbol {
    /// The presentation glyph for this symbol, consumed by the rendering
    /// layer and never read back by the engine.
    pub fn to_str(self) -> (r: &'static str)
        ensures
            r@ == symbol_glyph(self),
    {
        match self {
            Symbol::And => "&",
            Symbol::Carrot => "^",
            Symbol::Equals => "=",
            Symbol::Hash => "#",
            Symbol::Line => "|",
            Symbol::Star => "*",
        }
    }
}

/// The `i`-th color in the fixed numbering.
pub fn color_at(i: usize) -> (c: Color)
    requires
        i < 6,
    ensures
        c == color_of_index(i as int),
        color_index(c) == i as int,
{
    match i {
        0 => Color::Blue,
        1 => Color::Green,
        2 => Color::Orange,
        3 => Color::Pink,
        4 => Color::Red,
        _ => Color::White,
    }
}

/// The `i`-th symbol in the fixed numbering.
pub fn symbol_at(i: usize) -> (s: Symbol)
    requires
        i < 6,
    ensures
        s == symbol_of_index(i as int),
        symbol_index(s) == i as int,
{
    match i {
        0 => Symbol::And,
        1 => Symbol::Carrot,
        2 => Symbol::Equals,
        3 => Symbol::Hash,
        4 => Symbol::Line,
        _ => Symbol::Star,
    }
}

} // verus!
