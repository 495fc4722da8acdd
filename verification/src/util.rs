use vstd::prelude::*;
use vstd::string::StrSliceExecFns;

verus! {

/// ASCII upper-casing of a single character: `a`..`z` map to `A`..`Z`,
/// every other character is unchanged.
pub open spec fn spec_upper_char(c: char) -> char {
    if 'a' <= c && c <= 'z' {
        ((c as u8) - 32) as char
    } else {
        c
    }
}

/// The tail of a snake-case to upper-camel-case conversion: `start` records
/// whether the next character begins a word.  Underscores separate words and
/// are dropped; the first character of each word is upper-cased.
pub open spec fn spec_ucc_from(s: Seq<char>, start: bool) -> Seq<char>
    decreases s.len(),
{
    if s.len() == 0 {
        Seq::empty()
    } else if s[0] == '_' {
        spec_ucc_from(s.drop_first(), true)
    } else if start {
        seq![spec_upper_char(s[0])] + spec_ucc_from(s.drop_first(), false)
    } else {
        seq![s[0]] + spec_ucc_from(s.drop_first(), false)
    }
}

/// Snake case converted to upper camel case.
pub open spec fn spec_sc_to_ucc(s: Seq<char>) -> Seq<char> {
    spec_ucc_from(s, true)
}

fn upper_char(c: char) -> (r: char)
    ensures
        r == spec_upper_char(c),
{
    if 'a' <= c && c <= 'z' {
        (c as u8 - 32) as char
    } else {
        c
    }
}

/// Converts a snake case string to an upper camel case string.
pub fn sc_to_ucc(string: &str) -> (r: String)
    ensures
        r@ == spec_sc_to_ucc(string@),
{
    let n: usize = string.unicode_len();
    let mut result = String::new();
    let mut start: bool = true;
    let mut i: usize = 0;
    proof {
        assert(string@.skip(0) =~= string@);
        assert(result@ + spec_ucc_from(string@, true) =~= spec_sc_to_ucc(string@));
    }
    while i < n
        invariant
            n == string@.len(),
            i <= n,
            result@ + spec_ucc_from(string@.skip(i as int), start) == spec_sc_to_ucc(string@),
        decreases n - i,
    {
        let c = string.get_char(i);
        proof {
            assert(string@.skip(i as int).drop_first() =~= string@.skip(i + 1));
            assert(string@.skip(i as int)[0] == string@[i as int]);
        }
        if c == '_' {
            start = true;
        } else if start {
            result.push(upper_char(c));
            start = false;
            proof {
                assert(result@ + spec_ucc_from(string@.skip(i + 1), false) =~= spec_sc_to_ucc(
                    string@,
                ));
            }
        } else {
            result.push(c);
            proof {
                assert(result@ + spec_ucc_from(string@.skip(i + 1), false) =~= spec_sc_to_ucc(
                    string@,
                ));
            }
        }
        i = i + 1;
    }
    proof {
        assert(string@.skip(n as int) =~= Seq::<char>::empty());
        assert(result@ =~= spec_sc_to_ucc(string@));
    }
    result
}

/// No character of a canonicalized identifier is an underscore.
proof fn lemma_ucc_no_underscore(s: Seq<char>, start: bool)
    ensures
        forall|i: int|
            0 <= i < spec_ucc_from(s, start).len() ==> #[trigger] spec_ucc_from(s, start)[i]
                != '_',
    decreases s.len(),
{
    if s.len() == 0 {
    } else if s[0] == '_' {
        lemma_ucc_no_underscore(s.drop_first(), true);
        let rest = spec_ucc_from(s.drop_first(), true);
        let out = spec_ucc_from(s, start);
        assert(out == rest);
        assert forall|i: int| 0 <= i < out.len() implies out[i] != '_' by {
            assert(out[i] == rest[i]);
        }
    } else {
        lemma_ucc_no_underscore(s.drop_first(), false);
        let rest = spec_ucc_from(s.drop_first(), false);
        let out = spec_ucc_from(s, start);
        assert(spec_upper_char(s[0]) != '_');
        assert forall|i: int| 0 <= i < out.len() implies out[i] != '_' by {
            if i > 0 {
                assert(out[i] == rest[i - 1]);
            }
        }
    }
}

/// The first character of a canonicalized identifier is never lower-case.
proof fn lemma_ucc_first_not_lower(s: Seq<char>)
    ensures
        spec_ucc_from(s, true).len() > 0 ==> !('a' <= spec_ucc_from(s, true)[0] && spec_ucc_from(
            s,
            true,
        )[0] <= 'z'),
    decreases s.len(),
{
    if s.len() == 0 {
    } else if s[0] == '_' {
        lemma_ucc_first_not_lower(s.drop_first());
    }
}

/// Away from a word start, a text without underscores passes through the
/// conversion unchanged.
proof fn lemma_ucc_mid_fixed(t: Seq<char>)
    requires
        forall|i: int| 0 <= i < t.len() ==> #[trigger] t[i] != '_',
    ensures
        spec_ucc_from(t, false) == t,
    decreases t.len(),
{
    if t.len() == 0 {
        assert(spec_ucc_from(t, false) =~= t);
    } else {
        lemma_ucc_mid_fixed(t.drop_first());
        assert(spec_ucc_from(t, false) =~= t);
    }
}

/// Canonicalizing an identifier is idempotent: applying the snake-case to
/// upper-camel-case conversion to an already converted identifier leaves it
/// unchanged.
pub proof fn lemma_sc_to_ucc_idempotent(s: Seq<char>)
    ensures
        spec_sc_to_ucc(spec_sc_to_ucc(s)) == spec_sc_to_ucc(s),
{
    let out = spec_sc_to_ucc(s);
    lemma_ucc_no_underscore(s, true);
    lemma_ucc_first_not_lower(s);
    if out.len() == 0 {
        assert(spec_ucc_from(out, true) =~= out);
    } else {
        lemma_ucc_mid_fixed(out.drop_first());
        assert(spec_upper_char(out[0]) == out[0]);
        assert(spec_ucc_from(out, true) =~= seq![spec_upper_char(out[0])] + spec_ucc_from(
            out.drop_first(),
            false,
        ));
        assert(spec_ucc_from(out, true) =~= out);
    }
}

} // verus!

