//! The text of file names and of lists written to files.

use crate::model::names_view;
use vstd::prelude::*;
use vstd::string::{StrSliceExecFns, StringExecFns};

verus! {

/// The character of the digit `d`.
pub open spec fn digit_char(d: nat) -> char {
    if d == 0 {
        '0'
    } else if d == 1 {
        '1'
    } else if d == 2 {
        '2'
    } else if d == 3 {
        '3'
    } else if d == 4 {
        '4'
    } else if d == 5 {
        '5'
    } else if d == 6 {
        '6'
    } else if d == 7 {
        '7'
    } else if d == 8 {
        '8'
    } else {
        '9'
    }
}

/// The digits of `n` in base ten, without leading zeros; "0" for zero.
pub open spec fn decimal_digits(n: nat) -> Seq<char>
    decreases n,
{
    if n < 10 {
        seq![digit_char(n)]
    } else {
        decimal_digits(n / 10).push(digit_char(n % 10))
    }
}

/// `count` zeros.
pub open spec fn zeros(count: nat) -> Seq<char> {
    Seq::new(count, |i: int| '0')
}

/// The digits of `n` in base ten, with zeros before them where they are fewer
/// than `width`.
pub open spec fn zero_padded(n: nat, width: nat) -> Seq<char> {
    if decimal_digits(n).len() < width {
        zeros((width - decimal_digits(n).len()) as nat) + decimal_digits(n)
    } else {
        decimal_digits(n)
    }
}

/// The ending of the name of a sprite image.
pub open spec fn image_suffix() -> Seq<char> {
    seq!['.', 'p', 'n', 'g']
}

/// The ending of the name of a tile record.
pub open spec fn record_suffix() -> Seq<char> {
    seq!['.', 'j', 's', 'o', 'n']
}

/// `lines`, each but the last followed by a line feed.
pub open spec fn joined(lines: Seq<Seq<char>>) -> Seq<char>
    decreases lines.len(),
{
    if lines.len() == 0 {
        Seq::empty()
    } else if lines.len() == 1 {
        lines[0]
    } else {
        joined(lines.drop_last()) + seq!['\n'] + lines.last()
    }
}

fn digit_str(d: u32) -> (s: &'static str)
    requires
        d < 10,
    ensures
        s@ == seq![digit_char(d as nat)],
{
    proof {
        reveal_strlit("0");
        reveal_strlit("1");
        reveal_strlit("2");
        reveal_strlit("3");
        reveal_strlit("4");
        reveal_strlit("5");
        reveal_strlit("6");
        reveal_strlit("7");
        reveal_strlit("8");
        reveal_strlit("9");
    }
    let s = if d == 0 {
        "0"
    } else if d == 1 {
        "1"
    } else if d == 2 {
        "2"
    } else if d == 3 {
        "3"
    } else if d == 4 {
        "4"
    } else if d == 5 {
        "5"
    } else if d == 6 {
        "6"
    } else if d == 7 {
        "7"
    } else if d == 8 {
        "8"
    } else {
        "9"
    };
    assert(s@ =~= seq![digit_char(d as nat)]);
    s
}

/// Writes `n` in base ten.
pub fn decimal(n: u32) -> (s: String)
    ensures
        s@ == decimal_digits(n as nat),
    decreases n,
{
    if n < 10 {
        String::from_str(digit_str(n))
    } else {
        let mut s = decimal(n / 10);
        s.append(digit_str(n % 10));
        assert(s@ =~= decimal_digits(n as nat));
        s
    }
}

/// Writes `n` in base ten with zeros before it, so that there are at least
/// ten digits.
pub fn zero_padded_decimal(n: u32) -> (s: String)
    ensures
        s@ == zero_padded(n as nat, 10),
{
    let digits = decimal(n);
    let len = digits.as_str().unicode_len();
    let mut s = String::new();
    let mut i: usize = len;
    while i < 10
        invariant
            len == digits@.len(),
            len <= i,
            len < 10 ==> i <= 10,
            len >= 10 ==> i == len,
            s@ == zeros((i - len) as nat),
        decreases 10 - i,
    {
        proof {
            reveal_strlit("0");
        }
        s.append("0");
        assert(s@ =~= zeros((i + 1 - len) as nat));
        i += 1;
    }
    s.append(digits.as_str());
    proof {
        if len >= 10 {
            assert(zeros(0) =~= Seq::empty());
            assert(s@ =~= digits@);
        }
    }
    s
}

/// The name of the image file of the sprite numbered `tile_id`.
pub fn sprite_file_name(tile_id: u32) -> (s: String)
    ensures
        s@ == decimal_digits(tile_id as nat) + image_suffix(),
{
    let mut s = decimal(tile_id);
    proof {
        reveal_strlit(".png");
        assert(".png"@ =~= image_suffix());
    }
    s.append(".png");
    s
}

/// The name of the image file of a sprite with the content hash `hash`.
pub fn hashed_file_name(hash: u32) -> (s: String)
    ensures
        s@ == zero_padded(hash as nat, 10) + image_suffix(),
{
    let mut s = zero_padded_decimal(hash);
    proof {
        reveal_strlit(".png");
        assert(".png"@ =~= image_suffix());
    }
    s.append(".png");
    s
}

/// The name of the record file of the tile called `id`.
pub fn record_file_name(id: &str) -> (s: String)
    ensures
        s@ == id@ + record_suffix(),
{
    let mut s = String::from_str(id);
    proof {
        reveal_strlit(".json");
        assert(".json"@ =~= record_suffix());
    }
    s.append(".json");
    s
}

/// Joins `lines` with line feeds between them.
pub fn join_lines(lines: &Vec<String>) -> (s: String)
    ensures
        s@ == joined(names_view(lines@)),
{
    let mut s = String::new();
    let mut i: usize = 0;
    while i < lines.len()
        invariant
            i <= lines.len(),
            s@ == joined(names_view(lines@.take(i as int))),
        decreases lines.len() - i,
    {
        let ghost upto = names_view(lines@.take(i as int));
        let ghost next = names_view(lines@.take(i + 1));
        proof {
            reveal_strlit("\n");
            assert(next.drop_last() =~= upto);
            assert(next.last() == lines@[i as int]@);
        }
        if i > 0 {
            s.append("\n");
        }
        s.append(lines[i].as_str());
        proof {
            if i == 0 {
                assert(s@ =~= next[0]);
            } else {
                assert(s@ =~= joined(upto) + seq!['\n'] + next.last());
            }
        }
        i += 1;
    }
    assert(lines@.take(i as int) =~= lines@);
    s
}

} // verus!
