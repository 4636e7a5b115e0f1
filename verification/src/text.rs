use crate::matrix::{flat, Matrix};
use vstd::prelude::*;
use vstd::string::StringExecFns;

verus! {

/// The decimal digit character for a value below ten.
pub open spec fn digit_char(d: int) -> char {
    if d == 0 {
        '0'
    } else if d == 1 {
        '1'
    } else if d == 2 {
        '2'
    } else if d == 3 {
        '3'
    } else if d == 4 {
        '4'
    } else if d == 5 {
        '5'
    } else if d == 6 {
        '6'
    } else if d == 7 {
        '7'
    } else if d == 8 {
        '8'
    } else {
        '9'
    }
}

/// The decimal text of a number: its digits, most significant first,
/// with no sign and no leading zero except for the number zero itself.
pub open spec fn decimal_of(n: nat) -> Seq<char>
    decreases n,
{
    if n < 10 {
        seq![digit_char(n as int)]
    } else {
        decimal_of(n / 10) + seq![digit_char((n % 10) as int)]
    }
}

/// The text of the first `j` elements of row `i` of a `cols`-column
/// grid: the elements' decimal texts separated by one space.
pub open spec fn row_text(a: Seq<u64>, cols: int, i: int, j: int) -> Seq<char>
    decreases j,
{
    if j <= 0 {
        Seq::<char>::empty()
    } else {
        row_text(a, cols, i, j - 1) + (if j > 1 {
            seq![' ']
        } else {
            Seq::<char>::empty()
        }) + decimal_of(a[flat(cols, i, j - 1)] as nat)
    }
}

/// The text of the first `i` rows of a `cols`-column grid: each row
/// bracket-delimited, rows separated by one line break, with no
/// trailing line break.
pub open spec fn grid_text(a: Seq<u64>, cols: int, i: int) -> Seq<char>
    decreases i,
{
    if i <= 0 {
        Seq::<char>::empty()
    } else {
        grid_text(a, cols, i - 1) + (if i > 1 {
            seq!['\n']
        } else {
            Seq::<char>::empty()
        }) + seq!['['] + row_text(a, cols, i - 1, cols) + seq![']']
    }
}

/// The one-character text of a decimal digit.
fn digit_str(d: u64) -> (r: &'static str)
    requires
        d < 10,
    ensures
        r@ == seq![digit_char(d as int)],
{
    let r: &'static str = if d == 0 {
        "0"
    } else if d == 1 {
        "1"
    } else if d == 2 {
        "2"
    } else if d == 3 {
        "3"
    } else if d == 4 {
        "4"
    } else if d == 5 {
        "5"
    } else if d == 6 {
        "6"
    } else if d == 7 {
        "7"
    } else if d == 8 {
        "8"
    } else {
        "9"
    };
    proof {
        reveal_strlit("0");
        reveal_strlit("1");
        reveal_strlit("2");
        reveal_strlit("3");
        reveal_strlit("4");
        reveal_strlit("5");
        reveal_strlit("6");
        reveal_strlit("7");
        reveal_strlit("8");
        reveal_strlit("9");
        assert(r@ =~= seq![digit_char(d as int)]);
    }
    r
}

/// Appends the decimal text of `n` to `s`.
fn push_decimal(s: &mut String, n: u64)
    ensures
        final(s)@ == old(s)@ + decimal_of(n as nat),
    decreases n,
{
    if n >= 10 {
        push_decimal(s, n / 10);
        let d = digit_str(n % 10);
        s.append(d);
        proof {
            assert(s@ =~= old(s)@ + decimal_of(n as nat));
        }
    } else {
        let d = digit_str(n);
        s.append(d);
        proof {
            assert(s@ =~= old(s)@ + decimal_of(n as nat));
        }
    }
}

impl<const R: usize, const C: usize> Matrix<u64, R, C> {
    /// The display text of the matrix: one bracket-delimited line per
    /// row, elements within a row separated by one space, rows
    /// separated by one line break, and no line break after the last
    /// row.
    pub fn render(&self) -> (s: String)
        requires
            self.wf(),
        ensures
            s@ == grid_text(self@, C as int, R as int),
    {
        proof {
            reveal_strlit("[");
            reveal_strlit("]");
            reveal_strlit(" ");
            reveal_strlit("\n");
        }
        let mut s = String::new();
        let mut row: usize = 0;
        while row < R
            invariant
                row <= R,
                self.wf(),
                s@ == grid_text(self@, C as int, row as int),
            decreases R - row,
        {
            proof {
                reveal_strlit("[");
                reveal_strlit("]");
                reveal_strlit(" ");
                reveal_strlit("\n");
            }
            let ghost entry = s@;
            if row > 0 {
                s.append("\n");
            }
            s.append("[");
            proof {
                assert(s@ =~= entry + (if row as int > 0 {
                    seq!['\n']
                } else {
                    Seq::<char>::empty()
                }) + seq!['['] + row_text(self@, C as int, row as int, 0));
            }
            let mut col: usize = 0;
            while col < C
                invariant
                    col <= C,
                    row < R,
                    self.wf(),
                    entry == grid_text(self@, C as int, row as int),
                    s@ == entry + (if row as int > 0 {
                        seq!['\n']
                    } else {
                        Seq::<char>::empty()
                    }) + seq!['['] + row_text(self@, C as int, row as int, col as int),
                decreases C - col,
            {
                proof {
                    reveal_strlit(" ");
                }
                if col > 0 {
                    s.append(" ");
                }
                let v = self.get(row, col);
                push_decimal(&mut s, v);
                proof {
                    assert(s@ =~= entry + (if row as int > 0 {
                        seq!['\n']
                    } else {
                        Seq::<char>::empty()
                    }) + seq!['['] + row_text(self@, C as int, row as int, col as int + 1));
                }
                col = col + 1;
            }
            s.append("]");
            proof {
                assert(s@ =~= grid_text(self@, C as int, row as int + 1));
            }
            row = row + 1;
        }
        s
    }
}

} // verus!
