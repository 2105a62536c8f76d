use vstd::prelude::*;
use vstd::string::StringExecFns;

use crate::model::Minesweeper;
use crate::pos_set::Position;

verus! {

/// How many times the character `c` occurs in `s`.
pub open spec fn char_count(s: Seq<char>, c: char) -> int
    decreases s.len(),
{
    if s.len() == 0 {
        0
    } else {
        char_count(s.drop_last(), c) + if s.last() == c {
            1int
        } else {
            0int
        }
    }
}

/// Occurrences add up over concatenation.
pub proof fn lemma_char_count_add(a: Seq<char>, b: Seq<char>, c: char)
    ensures
        char_count(a + b, c) == char_count(a, c) + char_count(b, c),
    decreases b.len(),
{
    if b.len() == 0 {
        assert(a + b =~= a);
    } else {
        assert((a + b).drop_last() =~= a + b.drop_last());
        lemma_char_count_add(a, b.drop_last(), c);
        assert((a + b).last() == b.last());
    }
}

proof fn lemma_count_singleton(c: char, d: char)
    ensures
        char_count(seq![c], d) == if c == d {
            1int
        } else {
            0int
        },
{
    reveal_with_fuel(char_count, 2);
    assert(seq![c].drop_last() =~= Seq::<char>::empty());
}

proof fn lemma_count_pair(c1: char, c2: char, d: char)
    ensures
        char_count(seq![c1, c2], d) == (if c1 == d {
            1int
        } else {
            0int
        }) + (if c2 == d {
            1int
        } else {
            0int
        }),
{
    reveal_with_fuel(char_count, 2);
    assert(seq![c1, c2].drop_last() =~= seq![c1]);
    lemma_count_singleton(c1, d);
}

impl Minesweeper {
    /// The decimal digit for an adjacent-mine count between 0 and 8.
    pub open spec fn spec_digit(n: int) -> char {
        if n == 0 {
            '0'
        } else if n == 1 {
            '1'
        } else if n == 2 {
            '2'
        } else if n == 3 {
            '3'
        } else if n == 4 {
            '4'
        } else if n == 5 {
            '5'
        } else if n == 6 {
            '6'
        } else if n == 7 {
            '7'
        } else {
            '8'
        }
    }

    /// The glyph shown for cell `p`. While the game runs: an open cell shows
    /// its adjacent-mine count, a flagged cell the flag, anything else the
    /// closed-cell glyph. After a loss: every mine is disclosed, the
    /// detonated one as an explosion, and every safe cell shows its count.
    pub open spec fn spec_cell_token(self, p: Position) -> Seq<char> {
        if !self.game_over {
            if self.open_positions@.contains(p) {
                seq![Self::spec_digit(self.spec_mines_around(p))]
            } else if self.flagged_positions@.contains(p) {
                seq!['\u{1F1F7}', '\u{1F1FA}']
            } else {
                seq!['\u{1F7E8}']
            }
        } else {
            if self.mines@.contains(p) {
                if self.open_positions@.contains(p) {
                    seq!['\u{1F4A5}']
                } else {
                    seq!['\u{1F4A3}']
                }
            } else {
                seq![Self::spec_digit(self.spec_mines_around(p))]
            }
        }
    }

    /// The first `x` cells of row `y`: each cell's token followed by one
    /// space.
    pub open spec fn spec_row_to(self, y: int, x: int) -> Seq<char>
        decreases x,
    {
        if x <= 0 {
            Seq::empty()
        } else {
            self.spec_row_to(y, x - 1) + self.spec_cell_token((((x - 1) as u16), (y as u16)))
                + seq![' ']
        }
    }

    /// One full row of the rendered board.
    pub open spec fn spec_row(self, y: int) -> Seq<char> {
        self.spec_row_to(y, self.width as int)
    }

    /// The first `y` rows, joined by single newlines, with no newline after
    /// the last row.
    pub open spec fn spec_render_to(self, y: int) -> Seq<char>
        decreases y,
    {
        if y <= 0 {
            Seq::empty()
        } else if y == 1 {
            self.spec_row(0)
        } else {
            self.spec_render_to(y - 1) + seq!['\n'] + self.spec_row(y - 1)
        }
    }

    /// The whole rendered board.
    pub open spec fn spec_render(self) -> Seq<char> {
        self.spec_render_to(self.height as int)
    }

    /// Renders the board: `height` lines of `width` space-terminated tokens.
    pub fn to_string(&self) -> (r: String)
        ensures
            r@ == self.spec_render(),
    {
        let mut s = String::new();
        let mut y: u16 = 0;
        while y < self.height
            invariant
                y <= self.height,
                s@ == self.spec_render_to(y as int),
            decreases self.height - y,
        {
            if y > 0 {
                s.append("\n");
                proof {
                    reveal_strlit("\n");
                    assert("\n"@ =~= seq!['\n']);
                }
            }
            let ghost sep: Seq<char> = if y > 0 {
                seq!['\n']
            } else {
                Seq::<char>::empty()
            };
            proof {
                assert(s@ =~= self.spec_render_to(y as int) + sep + self.spec_row_to(y as int, 0));
            }
            let mut x: u16 = 0;
            while x < self.width
                invariant
                    x <= self.width,
                    y < self.height,
                    s@ == self.spec_render_to(y as int) + sep + self.spec_row_to(
                        y as int,
                        x as int,
                    ),
                    sep == if y > 0 {
                        seq!['\n']
                    } else {
                        Seq::<char>::empty()
                    },
                decreases self.width - x,
            {
                let p = (x, y);
                let ghost s_before = s@;
                if !self.game_over {
                    if self.open_positions.contains(&p) {
                        let c = self.mines_around(p);
                        s.append(digit_token(c));
                    } else if self.flagged_positions.contains(&p) {
                        s.append("\u{1F1F7}\u{1F1FA} ");
                        proof {
                            reveal_strlit("\u{1F1F7}\u{1F1FA} ");
                            assert("\u{1F1F7}\u{1F1FA} "@ =~= seq!['\u{1F1F7}', '\u{1F1FA}', ' ']);
                        }
                    } else {
                        s.append("\u{1F7E8} ");
                        proof {
                            reveal_strlit("\u{1F7E8} ");
                            assert("\u{1F7E8} "@ =~= seq!['\u{1F7E8}', ' ']);
                        }
                    }
                } else {
                    if self.mines.contains(&p) {
                        if self.open_positions.contains(&p) {
                            s.append("\u{1F4A5} ");
                            proof {
                                reveal_strlit("\u{1F4A5} ");
                                assert("\u{1F4A5} "@ =~= seq!['\u{1F4A5}', ' ']);
                            }
                        } else {
                            s.append("\u{1F4A3} ");
                            proof {
                                reveal_strlit("\u{1F4A3} ");
                                assert("\u{1F4A3} "@ =~= seq!['\u{1F4A3}', ' ']);
                            }
                        }
                    } else {
                        let c = self.mines_around(p);
                        s.append(digit_token(c));
                    }
                }
                proof {
                    assert(s@ =~= s_before + self.spec_cell_token(p) + seq![' ']);
                    assert(s@ =~= self.spec_render_to(y as int) + sep + self.spec_row_to(
                        y as int,
                        x as int + 1,
                    ));
                }
                x = x + 1;
            }
            proof {
                assert(s@ =~= self.spec_render_to(y as int + 1));
            }
            y = y + 1;
        }
        s
    }

    /// A cell's token holds one or two characters and never a space or a
    /// newline.
    pub proof fn lemma_token_counts(self, p: Position)
        ensures
            char_count(self.spec_cell_token(p), ' ') == 0,
            char_count(self.spec_cell_token(p), '\n') == 0,
            1 <= self.spec_cell_token(p).len() <= 2,
    {
        let d = Self::spec_digit(self.spec_mines_around(p));
        lemma_count_singleton(d, ' ');
        lemma_count_singleton(d, '\n');
        lemma_count_singleton('\u{1F7E8}', ' ');
        lemma_count_singleton('\u{1F7E8}', '\n');
        lemma_count_singleton('\u{1F4A5}', ' ');
        lemma_count_singleton('\u{1F4A5}', '\n');
        lemma_count_singleton('\u{1F4A3}', ' ');
        lemma_count_singleton('\u{1F4A3}', '\n');
        lemma_count_pair('\u{1F1F7}', '\u{1F1FA}', ' ');
        lemma_count_pair('\u{1F1F7}', '\u{1F1FA}', '\n');
    }

    /// A rendered row prefix of `x` cells holds exactly `x` spaces, no
    /// newline, and ends with a space.
    pub proof fn lemma_row_to_counts(self, y: int, x: int)
        requires
            x >= 0,
        ensures
            char_count(self.spec_row_to(y, x), ' ') == x,
            char_count(self.spec_row_to(y, x), '\n') == 0,
            x >= 1 ==> self.spec_row_to(y, x).len() >= 1 && self.spec_row_to(y, x).last() == ' ',
        decreases x,
    {
        if x > 0 {
            self.lemma_row_to_counts(y, x - 1);
            let t = self.spec_cell_token((((x - 1) as u16), (y as u16)));
            self.lemma_token_counts((((x - 1) as u16), (y as u16)));
            lemma_char_count_add(self.spec_row_to(y, x - 1), t, ' ');
            lemma_char_count_add(self.spec_row_to(y, x - 1) + t, seq![' '], ' ');
            lemma_char_count_add(self.spec_row_to(y, x - 1), t, '\n');
            lemma_char_count_add(self.spec_row_to(y, x - 1) + t, seq![' '], '\n');
            lemma_count_singleton(' ', ' ');
            lemma_count_singleton(' ', '\n');
        }
    }

    /// The rendered board has `height` lines separated by single newlines;
    /// every line carries exactly `width` space-terminated tokens, so the
    /// whole board holds `height - 1` newlines and `width * height` spaces.
    pub proof fn lemma_render_shape(self)
        requires
            self.width >= 1,
            self.height >= 1,
        ensures
            char_count(self.spec_render(), '\n') == self.height - 1,
            char_count(self.spec_render(), ' ') == self.width as int * self.height as int,
            forall|y: int|
                0 <= y < self.height ==> char_count(#[trigger] self.spec_row(y), ' ')
                    == self.width as int && char_count(self.spec_row(y), '\n') == 0
                    && self.spec_row(y).len() >= 1 && self.spec_row(y).last() == ' ',
    {
        assert forall|y: int| 0 <= y < self.height implies char_count(#[trigger] self.spec_row(y), ' ')
            == self.width as int && char_count(self.spec_row(y), '\n') == 0 && self.spec_row(
            y,
        ).len() >= 1 && self.spec_row(y).last() == ' ' by {
            self.lemma_row_to_counts(y, self.width as int);
        }
        self.lemma_render_to_shape(self.height as int);
    }

    proof fn lemma_render_to_shape(self, y: int)
        requires
            self.width >= 1,
            1 <= y,
        ensures
            char_count(self.spec_render_to(y), '\n') == y - 1,
            char_count(self.spec_render_to(y), ' ') == self.width as int * y,
        decreases y,
    {
        let w = self.width as int;
        self.lemma_row_to_counts(y - 1, w);
        if y == 1 {
        } else {
            self.lemma_render_to_shape(y - 1);
            lemma_char_count_add(self.spec_render_to(y - 1), seq!['\n'], '\n');
            lemma_char_count_add(self.spec_render_to(y - 1) + seq!['\n'], self.spec_row(y - 1), '\n');
            lemma_char_count_add(self.spec_render_to(y - 1), seq!['\n'], ' ');
            lemma_char_count_add(self.spec_render_to(y - 1) + seq!['\n'], self.spec_row(y - 1), ' ');
            lemma_count_singleton('\n', '\n');
            lemma_count_singleton('\n', ' ');
            assert(w * (y - 1) + w == w * y) by (nonlinear_arith);
        }
    }
}

/// The token of an open safe cell: the count as a decimal digit, then a
/// space.
fn digit_token(c: u8) -> (r: &'static str)
    requires
        c <= 8,
    ensures
        r@ == seq![Minesweeper::spec_digit(c as int), ' '],
{
    proof {
        reveal_strlit("0 ");
        reveal_strlit("1 ");
        reveal_strlit("2 ");
        reveal_strlit("3 ");
        reveal_strlit("4 ");
        reveal_strlit("5 ");
        reveal_strlit("6 ");
        reveal_strlit("7 ");
        reveal_strlit("8 ");
        assert("0 "@ =~= seq!['0', ' ']);
        assert("1 "@ =~= seq!['1', ' ']);
        assert("2 "@ =~= seq!['2', ' ']);
        assert("3 "@ =~= seq!['3', ' ']);
        assert("4 "@ =~= seq!['4', ' ']);
        assert("5 "@ =~= seq!['5', ' ']);
        assert("6 "@ =~= seq!['6', ' ']);
        assert("7 "@ =~= seq!['7', ' ']);
        assert("8 "@ =~= seq!['8', ' ']);
    }
    match c {
        0 => "0 ",
        1 => "1 ",
        2 => "2 ",
        3 => "3 ",
        4 => "4 ",
        5 => "5 ",
        6 => "6 ",
        7 => "7 ",
        _ => "8 ",
    }
}

} // verus!
