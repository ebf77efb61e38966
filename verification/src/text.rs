//! Pure text formatting: decimal renderings of integers, fixed-precision
//! fractions, and separator-joined lists. Every executable function here is
//! proved to return exactly the character sequence its spec function names.

use vstd::prelude::*;

verus! {

/// The character for one decimal digit.
pub open spec fn digit_char(d: int) -> char {
    if d == 0 {
        '0'
    } else if d == 1 {
        '1'
    } else if d == 2 {
        '2'
    } else if d == 3 {
        '3'
    } else if d == 4 {
        '4'
    } else if d == 5 {
        '5'
    } else if d == 6 {
        '6'
    } else if d == 7 {
        '7'
    } else if d == 8 {
        '8'
    } else {
        '9'
    }
}

/// The usual decimal rendering of a natural number, without leading zeros
/// (except that zero itself is rendered "0").
pub open spec fn dec_digits(n: nat) -> Seq<char>
    decreases n,
{
    if n < 10 {
        seq![digit_char(n as int)]
    } else {
        dec_digits(n / 10).push(digit_char((n % 10) as int))
    }
}

/// The last `width` decimal digits of `n`, zero-padded to exactly `width`
/// characters.
pub open spec fn padded_digits(n: nat, width: nat) -> Seq<char>
    decreases width,
{
    if width == 0 {
        Seq::empty()
    } else {
        padded_digits(n / 10, (width - 1) as nat).push(digit_char((n % 10) as int))
    }
}

/// The items of `tail` each preceded by the separator, concatenated.
pub open spec fn sep_items(items: Seq<Seq<char>>, sep: Seq<char>) -> Seq<char>
    decreases items.len(),
{
    if items.len() == 0 {
        Seq::empty()
    } else {
        sep + items.first() + sep_items(items.drop_first(), sep)
    }
}

/// The items joined by the separator: no leading and no trailing separator.
pub open spec fn joined(items: Seq<Seq<char>>, sep: Seq<char>) -> Seq<char> {
    if items.len() == 0 {
        Seq::empty()
    } else {
        items.first() + sep_items(items.drop_first(), sep)
    }
}

fn digit_str(d: u64) -> (r: &'static str)
    requires
        d < 10,
    ensures
        r@ == seq![digit_char(d as int)],
{
    proof {
        reveal_strlit("0");
        reveal_strlit("1");
        reveal_strlit("2");
        reveal_strlit("3");
        reveal_strlit("4");
        reveal_strlit("5");
        reveal_strlit("6");
        reveal_strlit("7");
        reveal_strlit("8");
        reveal_strlit("9");
    }
    let r = if d == 0 {
        "0"
    } else if d == 1 {
        "1"
    } else if d == 2 {
        "2"
    } else if d == 3 {
        "3"
    } else if d == 4 {
        "4"
    } else if d == 5 {
        "5"
    } else if d == 6 {
        "6"
    } else if d == 7 {
        "7"
    } else if d == 8 {
        "8"
    } else {
        "9"
    };
    proof {
        assert(r@ =~= seq![digit_char(d as int)]);
    }
    r
}

/// Renders `n` in decimal, without leading zeros.
pub fn u64_to_dec(n: u64) -> (r: String)
    ensures
        r@ == dec_digits(n as nat),
    decreases n,
{
    if n < 10 {
        String::from_str(digit_str(n))
    } else {
        let mut s = u64_to_dec(n / 10);
        s.append(digit_str(n % 10));
        proof {
            assert(s@ =~= dec_digits(n as nat));
        }
        s
    }
}

/// Renders the last `width` decimal digits of `n`, zero-padded.
pub fn u64_to_padded(n: u64, width: u64) -> (r: String)
    ensures
        r@ == padded_digits(n as nat, width as nat),
    decreases width,
{
    if width == 0 {
        String::new()
    } else {
        let mut s = u64_to_padded(n / 10, width - 1);
        s.append(digit_str(n % 10));
        proof {
            assert(s@ =~= padded_digits(n as nat, width as nat));
        }
        s
    }
}

/// Joins the given strings with the separator; empty input gives the empty
/// string, and no separator leads or trails.
pub fn join_all(items: &Vec<String>, sep: &str) -> (r: String)
    ensures
        r@ == joined(items@.map_values(|s: String| s@), sep@),
{
    let ghost views = items@.map_values(|s: String| s@);
    let mut r = String::new();
    let n = items.len();
    let mut i: usize = 0;
    proof {
        assert(views.skip(0) =~= views);
        assert(r@ + tail_join(views.skip(0), sep@, true) =~= joined(views, sep@));
    }
    while i < n
        invariant
            n == items@.len(),
            i <= n,
            views == items@.map_values(|s: String| s@),
            r@ + tail_join(views.skip(i as int), sep@, i == 0) == joined(views, sep@),
        decreases n - i,
    {
        let ghost r0 = r@;
        proof {
            assert(views.skip(i as int).first() == views[i as int]);
            assert(views.skip(i as int).drop_first() =~= views.skip(i as int + 1));
        }
        if i > 0 {
            r.append(sep);
        }
        r.append(items[i].as_str());
        proof {
            if i > 0 {
                assert(tail_join(views.skip(i as int), sep@, false) == sep@ + views[i as int]
                    + sep_items(views.skip(i as int + 1), sep@));
                assert(r@ + tail_join(views.skip(i as int + 1), sep@, false) =~= r0 + tail_join(
                    views.skip(i as int),
                    sep@,
                    false,
                ));
            } else {
                assert(tail_join(views.skip(0), sep@, true) == views[0] + sep_items(
                    views.skip(1),
                    sep@,
                ));
                assert(r@ + tail_join(views.skip(1), sep@, false) =~= r0 + tail_join(
                    views.skip(0),
                    sep@,
                    true,
                ));
            }
        }
        i = i + 1;
    }
    proof {
        assert(views.skip(n as int) =~= Seq::<Seq<char>>::empty());
        assert(r@ + tail_join(views.skip(n as int), sep@, n == 0) =~= r@);
    }
    r
}

/// What remains to be appended when the first `at_start`-or-later items are
/// already in place: the whole join at the start, the separated tail after.
pub open spec fn tail_join(items: Seq<Seq<char>>, sep: Seq<char>, at_start: bool) -> Seq<char> {
    if at_start {
        joined(items, sep)
    } else {
        sep_items(items, sep)
    }
}

} // verus!
