use vstd::prelude::*;
use vstd::slice::slice_subrange;
use vstd::std_specs::iter::IteratorSpec;

verus! {

/// The characters of `s`, in order.
pub(crate) fn chars_of(s: &str) -> (r: Vec<char>)
    ensures
        r@ == s@,
{
    broadcast use vstd::string::axiom_spec_iter, vstd::string::next_postcondition;

    let mut out: Vec<char> = Vec::new();
    let mut it = s.chars();
    loop
        invariant
            out@ + it.remaining() == s@,
        ensures
            out@ == s@,
        decreases s@.len() - out@.len(),
    {
        match it.next() {
            Some(c) => {
                let ghost before = out@;
                out.push(c);
                proof {
                    assert(out@ + it.remaining() =~= before + (seq![c] + it.remaining()));
                }
            },
            None => {
                proof {
                    assert(out@ + it.remaining() =~= out@);
                }
                break;
            },
        }
    }
    out
}

/// Relies on `String::push`: appends `c` to the end of `s`.
#[verifier::external_body]
fn push_char(s: &mut String, c: char)
    ensures
        final(s)@ == old(s)@.push(c),
{
    s.push(c)
}

/// The string of the given characters, in order.
pub(crate) fn string_from_chars(cs: &[char]) -> (r: String)
    ensures
        r@ == cs@,
{
    let mut out = String::new();
    let mut i: usize = 0;
    while i < cs.len()
        invariant
            i <= cs@.len(),
            out@ == cs@.subrange(0, i as int),
        decreases cs@.len() - i,
    {
        push_char(&mut out, cs[i]);
        proof {
            assert(out@ =~= cs@.subrange(0, i as int + 1));
        }
        i = i + 1;
    }
    proof {
        assert(cs@.subrange(0, cs@.len() as int) =~= cs@);
    }
    out
}

/// What `char::to_uppercase` yields for `c`.
pub uninterp spec fn upper_of(c: char) -> Seq<char>;

/// What `char::to_lowercase` yields for `c`.
pub uninterp spec fn lower_of(c: char) -> Seq<char>;

/// Relies on `char::to_uppercase`: the characters of the uppercase mapping of `c`.
#[verifier::external_body]
fn uppercase(c: char) -> (r: Vec<char>)
    ensures
        r@ == upper_of(c),
{
    c.to_uppercase().collect()
}

/// Relies on `char::to_lowercase`: the characters of the lowercase mapping of `c`.
#[verifier::external_body]
fn lowercase(c: char) -> (r: Vec<char>)
    ensures
        r@ == lower_of(c),
{
    c.to_lowercase().collect()
}

/// The first character of `s`, if any.
pub open spec fn first_of(s: Seq<char>) -> Seq<char> {
    if s.len() > 0 { seq![s[0]] } else { Seq::empty() }
}

/// The camel case of `s`, given the uppercase mapping `ups[i]` and the lowercase mapping
/// `lows[i]` of each character `s[i]`: each `_` dropped, the character after it (and the
/// first) replaced by its uppercase mapping, every other character by the first character
/// of its lowercase mapping.
pub open spec fn camel_with(s: Seq<char>, ups: Seq<Seq<char>>, lows: Seq<Seq<char>>, capitalize: bool) -> Seq<char>
    decreases s.len(),
{
    if s.len() == 0 || ups.len() == 0 || lows.len() == 0 {
        Seq::empty()
    } else if s[0] == '_' {
        camel_with(s.skip(1), ups.skip(1), lows.skip(1), true)
    } else if capitalize {
        ups[0] + camel_with(s.skip(1), ups.skip(1), lows.skip(1), false)
    } else {
        first_of(lows[0]) + camel_with(s.skip(1), ups.skip(1), lows.skip(1), false)
    }
}

/// The camel case of `s` under `char`'s own case mappings.
pub open spec fn camel_case(s: Seq<char>) -> Seq<char> {
    camel_with(s, s.map_values(|c: char| upper_of(c)), s.map_values(|c: char| lower_of(c)), true)
}

pub open spec fn char_seqs(v: Seq<Vec<char>>) -> Seq<Seq<char>> {
    v.map_values(|x: Vec<char>| x@)
}

/// Converts a snake-case name to camel case, given the uppercase and lowercase mapping of
/// each of its characters (see `camel_with`).
pub fn camel_case_with(s: &[char], ups: &Vec<Vec<char>>, lows: &Vec<Vec<char>>) -> (r: String)
    requires
        ups@.len() == s@.len(),
        lows@.len() == s@.len(),
    ensures
        r@ == camel_with(s@, char_seqs(ups@), char_seqs(lows@), true),
{
    let ghost us = char_seqs(ups@);
    let ghost ls = char_seqs(lows@);
    let mut out: Vec<char> = Vec::new();
    let mut capitalize = true;
    let mut i: usize = 0;
    proof {
        assert(s@.skip(0) =~= s@);
        assert(us.skip(0) =~= us);
        assert(ls.skip(0) =~= ls);
        assert(out@ + camel_with(s@, us, ls, true) =~= camel_with(s@, us, ls, true));
    }
    while i < s.len()
        invariant
            i <= s@.len() == us.len() == ls.len(),
            us == char_seqs(ups@),
            ls == char_seqs(lows@),
            camel_with(s@, us, ls, true) == out@ + camel_with(
                s@.skip(i as int),
                us.skip(i as int),
                ls.skip(i as int),
                capitalize,
            ),
        decreases s@.len() - i,
    {
        let ch = s[i];
        let ghost prev = out@;
        let ghost rest = camel_with(s@.skip(i as int + 1), us.skip(i as int + 1), ls.skip(i as int + 1), false);
        proof {
            assert(s@.skip(i as int)[0] == ch);
            assert(s@.skip(i as int).skip(1) =~= s@.skip(i as int + 1));
            assert(us.skip(i as int).skip(1) =~= us.skip(i as int + 1));
            assert(ls.skip(i as int).skip(1) =~= ls.skip(i as int + 1));
            assert(us.skip(i as int)[0] == ups@[i as int]@);
            assert(ls.skip(i as int)[0] == lows@[i as int]@);
        }
        if ch == '_' {
            capitalize = true;
        } else if capitalize {
            let up = &ups[i];
            let mut k: usize = 0;
            while k < up.len()
                invariant
                    k <= up@.len(),
                    out@ == prev + up@.subrange(0, k as int),
                decreases up@.len() - k,
            {
                out.push(up[k]);
                proof {
                    assert(out@ =~= prev + up@.subrange(0, k as int + 1));
                }
                k = k + 1;
            }
            proof {
                assert(up@.subrange(0, up@.len() as int) =~= up@);
                assert(prev + (up@ + rest) =~= out@ + rest);
            }
            capitalize = false;
        } else {
            let low = &lows[i];
            if low.len() > 0 {
                out.push(low[0]);
                proof {
                    assert(prev + (first_of(low@) + rest) =~= out@ + rest);
                }
            } else {
                proof {
                    assert(prev + (first_of(low@) + rest) =~= out@ + rest);
                }
            }
        }
        i = i + 1;
    }
    proof {
        assert(s@.skip(s@.len() as int) =~= Seq::<char>::empty());
        assert(out@ + Seq::<char>::empty() =~= out@);
    }
    string_from_chars(out.as_slice())
}

/// Converts a snake-case name to camel case (see `camel_case`).
pub fn to_camel_case(s: &str) -> (r: String)
    ensures
        r@ == camel_case(s@),
{
    let cs = chars_of(s);
    let mut ups: Vec<Vec<char>> = Vec::new();
    let mut lows: Vec<Vec<char>> = Vec::new();
    let mut i: usize = 0;
    while i < cs.len()
        invariant
            i <= cs@.len(),
            cs@ == s@,
            char_seqs(ups@) == s@.subrange(0, i as int).map_values(|c: char| upper_of(c)),
            char_seqs(lows@) == s@.subrange(0, i as int).map_values(|c: char| lower_of(c)),
        decreases cs@.len() - i,
    {
        let ghost (pu, pl) = (ups@, lows@);
        ups.push(uppercase(cs[i]));
        lows.push(lowercase(cs[i]));
        proof {
            assert(char_seqs(ups@) =~= char_seqs(pu).push(upper_of(s@[i as int])));
            assert(char_seqs(lows@) =~= char_seqs(pl).push(lower_of(s@[i as int])));
            assert(s@.subrange(0, i as int + 1).map_values(|c: char| upper_of(c)) =~= s@.subrange(0, i as int).map_values(
                |c: char| upper_of(c),
            ).push(upper_of(s@[i as int])));
            assert(s@.subrange(0, i as int + 1).map_values(|c: char| lower_of(c)) =~= s@.subrange(0, i as int).map_values(
                |c: char| lower_of(c),
            ).push(lower_of(s@[i as int])));
        }
        i = i + 1;
    }
    proof {
        assert(s@.subrange(0, s@.len() as int) =~= s@);
    }
    camel_case_with(cs.as_slice(), &ups, &lows)
}

/// Where the last segment of a `::`-separated path begins: the separators are found from
/// the left, and `start` is where the current segment began.
pub open spec fn segment_start(s: Seq<char>, start: int, i: int) -> int
    decreases s.len() - i,
{
    if 0 <= i && i + 1 < s.len() {
        if s[i] == ':' && s[i + 1] == ':' {
            segment_start(s, i + 2, i + 2)
        } else {
            segment_start(s, start, i + 1)
        }
    } else {
        start
    }
}

/// The last segment of a `::`-separated path.
pub open spec fn last_segment(s: Seq<char>) -> Seq<char> {
    s.subrange(segment_start(s, 0, 0), s.len() as int)
}

/// The short name of a type from its full path: the text after its last `::`, without
/// crate and module.
pub fn type_shortname(full: &str) -> (r: String)
    ensures
        r@ == last_segment(full@),
{
    let cs = chars_of(full);
    let mut start: usize = 0;
    let mut i: usize = 0;
    while i < cs.len() && i + 1 < cs.len()
        invariant
            cs@ == full@,
            start <= i <= cs@.len(),
            segment_start(full@, 0, 0) == segment_start(full@, start as int, i as int),
        decreases cs@.len() - i,
    {
        if cs[i] == ':' && cs[i + 1] == ':' {
            i = i + 2;
            start = i;
        } else {
            i = i + 1;
        }
    }
    string_from_chars(slice_subrange(cs.as_slice(), start, cs.len()))
}

} // verus!
