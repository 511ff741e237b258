//! Small verified helpers on characters and strings: decimal rendering,
//! ASCII case folding, and character-level comparison of string slices.

use vstd::prelude::*;

verus! {

/// The decimal digit character for a value below ten.
pub open spec fn digit_char(n: nat) -> char {
    if n == 0 {
        '0'
    } else if n == 1 {
        '1'
    } else if n == 2 {
        '2'
    } else if n == 3 {
        '3'
    } else if n == 4 {
        '4'
    } else if n == 5 {
        '5'
    } else if n == 6 {
        '6'
    } else if n == 7 {
        '7'
    } else if n == 8 {
        '8'
    } else {
        '9'
    }
}

/// The usual decimal rendering of a natural number, most significant digit
/// first, with no leading zeros (zero itself is rendered as "0").
pub open spec fn decimal(n: nat) -> Seq<char>
    decreases n,
{
    if n < 10 {
        seq![digit_char(n)]
    } else {
        decimal(n / 10).push(digit_char(n % 10))
    }
}

fn digit_str(n: usize) -> (r: &'static str)
    requires
        n < 10,
    ensures
        r@ == seq![digit_char(n as nat)],
{
    proof {
        reveal_strlit("0");
        reveal_strlit("1");
        reveal_strlit("2");
        reveal_strlit("3");
        reveal_strlit("4");
        reveal_strlit("5");
        reveal_strlit("6");
        reveal_strlit("7");
        reveal_strlit("8");
        reveal_strlit("9");
    }
    let r: &'static str = if n == 0 {
        "0"
    } else if n == 1 {
        "1"
    } else if n == 2 {
        "2"
    } else if n == 3 {
        "3"
    } else if n == 4 {
        "4"
    } else if n == 5 {
        "5"
    } else if n == 6 {
        "6"
    } else if n == 7 {
        "7"
    } else if n == 8 {
        "8"
    } else {
        "9"
    };
    proof {
        assert(r@ =~= seq![digit_char(n as nat)]);
    }
    r
}

/// Render a machine integer in decimal.
pub fn usize_to_string(n: usize) -> (s: String)
    ensures
        s@ == decimal(n as nat),
    decreases n,
{
    if n < 10 {
        let s = digit_str(n).to_owned();
        proof {
            assert(s@ =~= decimal(n as nat));
        }
        s
    } else {
        let front = usize_to_string(n / 10);
        let s = front.concat(digit_str(n % 10));
        proof {
            assert(s@ =~= decimal(n as nat));
        }
        s
    }
}

/// ASCII case folding of one character: uppercase letters are lowered,
/// every other character is kept.
pub open spec fn lower_char_spec(c: char) -> char {
    if 65 <= c as u32 <= 90 {
        ((c as u32) + 32) as char
    } else {
        c
    }
}

/// ASCII case folding of a character sequence.
pub open spec fn lower_spec(s: Seq<char>) -> Seq<char> {
    Seq::new(s.len(), |i: int| lower_char_spec(s[i]))
}

/// Relies on str::to_ascii_lowercase: ASCII uppercase letters are replaced
/// with their lowercase counterpart; all other characters are unchanged.
#[verifier::external_body]
pub fn ascii_lower(s: &str) -> (r: String)
    ensures
        r@ == lower_spec(s@),
{
    s.to_ascii_lowercase()
}

/// The sequence of `n` copies of one character.
pub open spec fn repeat_char(c: char, n: nat) -> Seq<char>
    decreases n,
{
    if n == 0 {
        Seq::empty()
    } else {
        repeat_char(c, (n - 1) as nat).push(c)
    }
}

/// A repetition is as long as its count.
pub broadcast proof fn lemma_repeat_char_len(c: char, n: nat)
    ensures
        #[trigger] repeat_char(c, n).len() == n,
    decreases n,
{
    if n > 0 {
        lemma_repeat_char_len(c, (n - 1) as nat);
    }
}

/// Every position of a repetition holds the repeated character.
pub broadcast proof fn lemma_repeat_char_index(c: char, n: nat, i: int)
    requires
        0 <= i < n,
    ensures
        #[trigger] repeat_char(c, n)[i] == c,
    decreases n,
{
    lemma_repeat_char_len(c, n);
    if n > 0 && i < n - 1 {
        lemma_repeat_char_index(c, (n - 1) as nat, i);
    }
}

/// A column of width sixteen: shorter text is padded with spaces on the
/// right, longer text is kept whole.
pub open spec fn pad16_spec(s: Seq<char>) -> Seq<char> {
    if s.len() >= 16 {
        s
    } else {
        s + repeat_char(' ', (16 - s.len()) as nat)
    }
}

/// Pad text on the right with spaces to a column of width sixteen.
pub fn pad16(s: String) -> (r: String)
    ensures
        r@ == pad16_spec(s@),
{
    let mut r = s;
    let ghost start = r@;
    proof {
        assert(start + repeat_char(' ', 0) =~= start);
    }
    loop
        invariant
            start.len() <= r@.len(),
            r@ == start + repeat_char(' ', (r@.len() - start.len()) as nat),
            r@.len() > start.len() ==> r@.len() <= 16,
        ensures
            start.len() <= r@.len(),
            r@ == start + repeat_char(' ', (r@.len() - start.len()) as nat),
            r@.len() >= 16,
            start.len() < 16 ==> r@.len() <= 16,
        decreases 16int - r@.len(),
    {
        let n = r.as_str().unicode_len();
        if n >= 16 {
            break ;
        }
        r.append(" ");
        proof {
            reveal_strlit(" ");
            assert(r@ =~= start + repeat_char(' ', (r@.len() - start.len()) as nat));
        }
    }
    proof {
        if start.len() < 16 {
            assert(r@.len() == 16);
        }
        assert(r@ =~= pad16_spec(start));
    }
    r
}

/// Character-level equality of two string slices.
pub fn str_eq(a: &str, b: &str) -> (r: bool)
    ensures
        r == (a@ == b@),
{
    let sa = a.to_owned();
    let sb = b.to_owned();
    sa == sb
}

} // verus!
