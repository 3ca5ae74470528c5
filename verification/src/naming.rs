use vstd::prelude::*;

verus! {

/// The decimal digit for a value below ten.
pub open spec fn digit_char(d: nat) -> char {
    (('0' as nat) + d) as char
}

/// `n` written in decimal, without leading zeros, as `format!("{}", n)`
/// writes it.
pub open spec fn decimal(n: nat) -> Seq<char>
    decreases n,
{
    if n < 10 {
        seq![digit_char(n)]
    } else {
        decimal(n / 10).push(digit_char(n % 10))
    }
}

/// The name tried for a duplicate whose plain name is taken: the stem, an
/// underscore, the counter, then the extension with its dot, if it has one.
pub open spec fn conflict_name_spec(stem: Seq<char>, counter: nat, extension: Option<Seq<char>>) -> Seq<char> {
    stem + seq!['_'] + decimal(counter) + match extension {
        Some(e) => seq!['.'] + e,
        None => Seq::empty(),
    }
}

fn digit_str(d: u64) -> (s: &'static str)
    requires
        d < 10,
    ensures
        s@ == seq![digit_char(d as nat)],
{
    proof {
        reveal_strlit("0");
        reveal_strlit("1");
        reveal_strlit("2");
        reveal_strlit("3");
        reveal_strlit("4");
        reveal_strlit("5");
        reveal_strlit("6");
        reveal_strlit("7");
        reveal_strlit("8");
        reveal_strlit("9");
    }
    match d {
        0 => "0",
        1 => "1",
        2 => "2",
        3 => "3",
        4 => "4",
        5 => "5",
        6 => "6",
        7 => "7",
        8 => "8",
        _ => "9",
    }
}

fn push_decimal(out: &mut String, n: u64)
    ensures
        final(out)@ == old(out)@ + decimal(n as nat),
    decreases n,
{
    if n >= 10 {
        push_decimal(out, n / 10);
    }
    out.append(digit_str(n % 10));
}

/// The file name `stem_counter.extension` under which a duplicate is moved
/// when its own name is already taken in the duplicates directory.
pub fn conflict_name(stem: &str, counter: u64, extension: Option<&str>) -> (r: String)
    ensures
        r@ == conflict_name_spec(
            stem@,
            counter as nat,
            match extension {
                Some(e) => Some(e@),
                None => None,
            },
        ),
        exists|t: Seq<char>|
            {
                &&& r@ == stem@ + seq!['_'] + t + match extension {
                    Some(e) => seq!['.'] + e@,
                    None => Seq::<char>::empty(),
                }
                &&& t.len() >= 1
                &&& forall|i: int| 0 <= i < t.len() ==> '0' <= #[trigger] t[i] <= '9'
                &&& digits_value(t) == counter
                &&& (t[0] == '0' ==> counter == 0 && t.len() == 1)
            },
{
    proof {
        lemma_decimal_reads_back(counter as nat);
    }
    let mut r = String::new();
    r.append(stem);
    proof {
        reveal_strlit("_");
        reveal_strlit(".");
    }
    r.append("_");
    push_decimal(&mut r, counter);
    match extension {
        Some(e) => {
            r.append(".");
            r.append(e);
        },
        None => {},
    }
    r
}

/// The position of the last dot in `name`, or -1 if it has none.
pub open spec fn last_dot(name: Seq<char>) -> int
    decreases name.len(),
{
    if name.len() == 0 {
        -1
    } else if name.last() == '.' {
        name.len() - 1
    } else {
        last_dot(name.drop_last())
    }
}

/// A file name's stem and extension, as `Path::file_stem` and
/// `Path::extension` see them: split at the last dot, unless there is none,
/// the name starts with its only dot (`.bashrc`), or the name is `..`.
pub open spec fn stem_and_extension(name: Seq<char>) -> (Seq<char>, Option<Seq<char>>) {
    let d = last_dot(name);
    if name == seq!['.', '.'] || d <= 0 {
        (name, None)
    } else {
        (name.take(d), Some(name.skip(d + 1)))
    }
}

proof fn lemma_last_dot(name: Seq<char>)
    ensures
        -1 <= last_dot(name) < name.len(),
        last_dot(name) >= 0 ==> name[last_dot(name)] == '.',
        forall|k: int| last_dot(name) < k < name.len() ==> name[k] != '.',
    decreases name.len(),
{
    if name.len() > 0 {
        lemma_last_dot(name.drop_last());
        assert forall|k: int| last_dot(name) < k < name.len() implies name[k] != '.' by {
            if k < name.len() - 1 {
                assert(name[k] == name.drop_last()[k]);
            }
        }
    }
}

/// Splits a file name into its stem and its extension (without the dot).
pub fn split_file_name(name: &str) -> (r: (String, Option<String>))
    ensures
        r.0@ == stem_and_extension(name@).0,
        match (r.1, stem_and_extension(name@).1) {
            (Some(e), Some(x)) => e@ == x,
            (None, None) => true,
            _ => false,
        },
        (name@ != seq!['.', '.'] && exists|i: int| 1 <= i < name@.len() && name@[i] == '.') ==> (
        r.1 matches Some(e) && r.0@ + seq!['.'] + e@ == name@ && !e@.contains('.')),
        !(name@ != seq!['.', '.'] && exists|i: int| 1 <= i < name@.len() && name@[i] == '.') ==> (
        r.0@ == name@ && r.1 is None),
{
    proof {
        lemma_split_gives_back_the_name(name@);
    }
    let n = name.unicode_len();
    let mut i: usize = n;
    let mut dot: Option<usize> = None;
    proof {
        lemma_last_dot(name@);
    }
    while i > 0
        invariant_except_break
            dot is None,
        invariant
            n == name@.len(),
            i <= n,
            forall|k: int| i <= k < n ==> name@[k] != '.',
        ensures
            match dot {
                Some(d) => d < n && name@[d as int] == '.' && forall|k: int|
                    d < k < n ==> name@[k] != '.',
                None => forall|k: int| 0 <= k < n ==> name@[k] != '.',
            },
        decreases i,
    {
        if name.get_char(i - 1) == '.' {
            dot = Some(i - 1);
            break;
        }
        i = i - 1;
    }
    proof {
        match dot {
            Some(d) => {
                if last_dot(name@) > d as int {
                } else if last_dot(name@) < d as int {
                    assert(name@[d as int] == '.');
                }
            },
            None => {
                if last_dot(name@) >= 0 {
                    assert(name@[last_dot(name@)] == '.');
                }
            },
        }
        reveal_strlit("..");
    }
    let dotdot = n == 2 && name.get_char(0) == '.' && name.get_char(1) == '.';
    proof {
        if n == 2 {
            assert(dotdot == (name@ =~= seq!['.', '.']));
        } else {
            assert(name@ != seq!['.', '.']);
        }
    }
    match dot {
        Some(d) => {
            if dotdot || d == 0 {
                (String::from_str(name), None)
            } else {
                let stem = name.substring_char(0, d);
                let ext = name.substring_char(d + 1, n);
                assert(stem@ == name@.take(d as int));
                assert(ext@ == name@.skip(d + 1));
                (String::from_str(stem), Some(String::from_str(ext)))
            }
        },
        None => (String::from_str(name), None),
    }
}

/// The number that a text of decimal digits denotes.
pub open spec fn digits_value(text: Seq<char>) -> int
    decreases text.len(),
{
    if text.len() == 0 {
        0
    } else {
        digits_value(text.drop_last()) * 10 + ((text.last() as int) - ('0' as int))
    }
}

proof fn lemma_digit_value(d: nat)
    requires
        d < 10,
    ensures
        (digit_char(d) as int) - ('0' as int) == d,
        '0' <= digit_char(d) <= '9',
{
    assert(('0' as nat) == 48);
    assert((digit_char(d) as int) == 48 + d);
}

/// The decimal text of a number reads back as that number: it is made of the
/// digits 0 to 9 only, the number they denote is `n`, and it starts with a
/// zero only when it is the text "0" of the number zero.
pub proof fn lemma_decimal_reads_back(n: nat)
    ensures
        decimal(n).len() >= 1,
        forall|i: int| 0 <= i < decimal(n).len() ==> '0' <= #[trigger] decimal(n)[i] <= '9',
        digits_value(decimal(n)) == n,
        decimal(n)[0] == '0' ==> n == 0 && decimal(n).len() == 1,
    decreases n,
{
    lemma_digit_value((n % 10) as nat);
    if n < 10 {
        assert(decimal(n).drop_last() =~= Seq::<char>::empty());
        assert(decimal(n).last() == digit_char(n));
        assert(digits_value(decimal(n)) == digits_value(Seq::<char>::empty()) * 10 + n);
    } else {
        let q = n / 10;
        lemma_decimal_reads_back(q);
        let s = decimal(n);
        assert(s.drop_last() == decimal(q));
        assert(n == q * 10 + n % 10);
        assert(s.last() == digit_char((n % 10) as nat));
        assert(digits_value(s) == digits_value(decimal(q)) * 10 + (n % 10));
        assert forall|i: int| 0 <= i < s.len() implies '0' <= #[trigger] s[i] <= '9' by {
            if i < s.len() - 1 {
                assert(s[i] == decimal(q)[i]);
            }
        }
        assert(s[0] == decimal(q)[0]);
    }
}

/// The extension is everything after the last dot, whatever its length, and
/// stem, dot and extension give back the name, unless the name has no dot
/// after its first character or is `..`; then the name is all stem.
pub proof fn lemma_split_gives_back_the_name(name: Seq<char>)
    ensures
        (name != seq!['.', '.'] && exists|i: int| 1 <= i < name.len() && name[i] == '.') ==> {
            let (stem, ext) = stem_and_extension(name);
            &&& ext is Some
            &&& stem + seq!['.'] + ext.unwrap() == name
            &&& !ext.unwrap().contains('.')
        },
        !(name != seq!['.', '.'] && exists|i: int| 1 <= i < name.len() && name[i] == '.') ==> (
        stem_and_extension(name) == (name, None::<Seq<char>>)),
{
    lemma_last_dot(name);
    let d = last_dot(name);
    if name != seq!['.', '.'] && exists|i: int| 1 <= i < name.len() && name[i] == '.' {
        let i = choose|i: int| 1 <= i < name.len() && name[i] == '.';
        assert(d >= i);
        let ext = name.skip(d + 1);
        assert(name.take(d) + seq!['.'] + ext =~= name);
        if ext.contains('.') {
            let w = choose|w: int| 0 <= w < ext.len() && ext[w] == '.';
            assert(name[d + 1 + w] == '.');
        }
    } else {
        if d >= 1 && name != seq!['.', '.'] {
            assert(name[d] == '.');
        }
    }
}

} // verus!
