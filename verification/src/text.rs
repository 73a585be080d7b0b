use vstd::prelude::*;

verus! {

/// The character of a decimal digit.
pub open spec fn digit_char(d: nat) -> char {
    if d == 0 {
        '0'
    } else if d == 1 {
        '1'
    } else if d == 2 {
        '2'
    } else if d == 3 {
        '3'
    } else if d == 4 {
        '4'
    } else if d == 5 {
        '5'
    } else if d == 6 {
        '6'
    } else if d == 7 {
        '7'
    } else if d == 8 {
        '8'
    } else {
        '9'
    }
}

/// The decimal form of `n`, without leading zeros.
pub open spec fn decimal(n: nat) -> Seq<char>
    decreases n,
{
    if n < 10 {
        seq![digit_char(n)]
    } else {
        decimal(n / 10) + seq![digit_char(n % 10)]
    }
}

/// The decimal form of `n`, with a leading "-" when it is negative.
pub open spec fn signed_decimal(n: int) -> Seq<char> {
    if n < 0 {
        seq!['-'] + decimal((-n) as nat)
    } else {
        decimal(n as nat)
    }
}

fn digit_str(d: u64) -> (s: &'static str)
    requires
        d < 10,
    ensures
        s@ == seq![digit_char(d as nat)],
{
    proof {
        reveal_strlit("0");
        reveal_strlit("1");
        reveal_strlit("2");
        reveal_strlit("3");
        reveal_strlit("4");
        reveal_strlit("5");
        reveal_strlit("6");
        reveal_strlit("7");
        reveal_strlit("8");
        reveal_strlit("9");
    }
    if d == 0 {
        "0"
    } else if d == 1 {
        "1"
    } else if d == 2 {
        "2"
    } else if d == 3 {
        "3"
    } else if d == 4 {
        "4"
    } else if d == 5 {
        "5"
    } else if d == 6 {
        "6"
    } else if d == 7 {
        "7"
    } else if d == 8 {
        "8"
    } else {
        "9"
    }
}

/// Appends the decimal form of `n` to `out`.
pub fn push_decimal(out: &mut String, n: u64)
    ensures
        final(out)@ == old(out)@ + decimal(n as nat),
    decreases n,
{
    if n >= 10 {
        push_decimal(out, n / 10);
    }
    out.append(digit_str(n % 10));
    assert(final(out)@ =~= old(out)@ + decimal(n as nat));
}

/// Appends the decimal form of `n`, signed, to `out`.
pub fn push_signed_decimal(out: &mut String, n: i64)
    requires
        n > i64::MIN,
    ensures
        final(out)@ == old(out)@ + signed_decimal(n as int),
{
    if n < 0 {
        out.append("-");
        proof {
            reveal_strlit("-");
        }
        push_decimal(out, (-n) as u64);
        assert(final(out)@ =~= old(out)@ + signed_decimal(n as int));
    } else {
        push_decimal(out, n as u64);
    }
}

/// What `str::to_lowercase` gives for `s`: Unicode lower-casing, which
/// depends on the text alone.
pub uninterp spec fn lowercase(s: Seq<char>) -> Seq<char>;

/// `str::to_lowercase`: the lower-case form of `s`, by Unicode's rules. Those
/// rules take tables to state, so the result is only named.
#[verifier::external_body]
pub(crate) fn to_lowercase(s: &str) -> (res: String)
    ensures
        res@ == lowercase(s@),
{
    s.to_lowercase()
}

/// The texts of a sequence of strings.
pub open spec fn words_of(v: Seq<String>) -> Seq<Seq<char>> {
    v.map_values(|s: String| s@)
}

/// The words joined with `sep` between each two.
pub open spec fn join_with_spec(words: Seq<Seq<char>>, sep: Seq<char>) -> Seq<char>
    decreases words.len(),
{
    if words.len() == 0 {
        Seq::empty()
    } else if words.len() == 1 {
        words[0]
    } else {
        join_with_spec(words.drop_last(), sep) + sep + words.last()
    }
}

/// The words joined with single spaces.
pub open spec fn join_spec(words: Seq<Seq<char>>) -> Seq<char> {
    join_with_spec(words, seq![' '])
}

/// Joins the words with `sep` between each two.
pub fn join_with(words: &Vec<String>, sep: &str) -> (res: String)
    ensures
        res@ == join_with_spec(words_of(words@), sep@),
{
    let mut out = String::new();
    let mut i: usize = 0;
    while i < words.len()
        invariant
            i <= words@.len(),
            out@ == join_with_spec(words_of(words@).take(i as int), sep@),
        decreases words@.len() - i,
    {
        proof {
            let ws = words_of(words@);
            assert(ws.take(i + 1).drop_last() =~= ws.take(i as int));
            assert(ws.take(i + 1).last() == words@[i as int]@);
        }
        if i > 0 {
            out.append(sep);
        }
        out.append(words[i].as_str());
        proof {
            let ws = words_of(words@);
            if i == 0 {
                assert(ws.take(1) =~= seq![words@[0]@]);
            }
            assert(out@ =~= join_with_spec(ws.take(i + 1), sep@));
        }
        i = i + 1;
    }
    proof {
        assert(words_of(words@).take(words@.len() as int) =~= words_of(words@));
    }
    out
}

/// Joins the words with single spaces.
pub fn join(words: &Vec<String>) -> (res: String)
    ensures
        res@ == join_spec(words_of(words@)),
{
    proof {
        reveal_strlit(" ");
        assert(" "@ =~= seq![' ']);
    }
    join_with(words, " ")
}

/// The strings of `words` from position `from` on.
pub fn words_from(words: &Vec<String>, from: usize) -> (res: Vec<String>)
    requires
        from <= words@.len(),
    ensures
        words_of(res@) == words_of(words@).subrange(from as int, words@.len() as int),
{
    let mut res: Vec<String> = Vec::new();
    let mut i = from;
    while i < words.len()
        invariant
            from <= i <= words@.len(),
            words_of(res@) =~= words_of(words@).subrange(from as int, i as int),
        decreases words@.len() - i,
    {
        let ghost before = res@;
        let w = words[i].clone();
        res.push(w);
        proof {
            assert(res@.drop_last() =~= before);
            assert(words_of(res@) =~= words_of(before).push(words@[i as int]@));
        }
        i = i + 1;
    }
    res
}

} // verus!
