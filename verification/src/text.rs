//! White space and prefixes of text.

use vstd::prelude::*;

verus! {

/// The characters with the Unicode property `White_Space`.
pub open spec fn white_space(c: char) -> bool {
    let n = c as u32;
    ||| 0x09 <= n <= 0x0d
    ||| n == 0x20
    ||| n == 0x85
    ||| n == 0xa0
    ||| n == 0x1680
    ||| 0x2000 <= n <= 0x200a
    ||| n == 0x2028
    ||| n == 0x2029
    ||| n == 0x202f
    ||| n == 0x205f
    ||| n == 0x3000
}

/// `s` without its leading white space.
pub open spec fn trimmed_start(s: Seq<char>) -> Seq<char>
    decreases s.len(),
{
    if s.len() > 0 && white_space(s.first()) {
        trimmed_start(s.drop_first())
    } else {
        s
    }
}

/// `s` without its trailing white space.
pub open spec fn trimmed_end(s: Seq<char>) -> Seq<char>
    decreases s.len(),
{
    if s.len() > 0 && white_space(s.last()) {
        trimmed_end(s.drop_last())
    } else {
        s
    }
}

/// `s` without the white space around it.
pub open spec fn trimmed(s: Seq<char>) -> Seq<char> {
    trimmed_end(trimmed_start(s))
}

/// `str::trim` of the standard library returns the part of a string that is
/// left when the white space at both ends is dropped, where white space is what
/// has the Unicode property `White_Space`.
pub assume_specification[ str::trim ](s: &str) -> (r: &str)
    ensures
        r@ == trimmed(s@),
;

/// `str::strip_prefix` of the standard library, with a string as the pattern,
/// returns what follows the prefix, and `None` if the string does not start
/// with it.
#[verifier::external_body]
pub(crate) fn strip_prefix<'a>(s: &'a str, prefix: &str) -> (r: Option<&'a str>)
    ensures
        match r {
            Some(rest) => s@ == prefix@ + rest@,
            None => !prefix@.is_prefix_of(s@),
        },
{
    s.strip_prefix(prefix)
}

/// Whether a text is made of white space alone.
pub open spec fn blank(s: Seq<char>) -> bool {
    forall|i: int| 0 <= i < s.len() ==> white_space(#[trigger] s[i])
}

/// Whether a text is not empty and has no white space at its ends.
pub open spec fn tight(s: Seq<char>) -> bool {
    s.len() > 0 && !white_space(s.first()) && !white_space(s.last())
}

proof fn lemma_trimmed_start(before: Seq<char>, s: Seq<char>)
    requires
        blank(before),
    ensures
        trimmed_start(before + s) == trimmed_start(s),
    decreases before.len(),
{
    if before.len() == 0 {
        assert(before + s == s);
    } else {
        let whole = before + s;
        assert(whole.first() == before[0]);
        assert(whole.drop_first() == before.drop_first() + s);
        lemma_trimmed_start(before.drop_first(), s);
    }
}

proof fn lemma_trimmed_end(s: Seq<char>, after: Seq<char>)
    requires
        blank(after),
    ensures
        trimmed_end(s + after) == trimmed_end(s),
    decreases after.len(),
{
    if after.len() == 0 {
        assert(s + after == s);
    } else {
        let whole = s + after;
        assert(whole.last() == after[after.len() - 1]);
        assert(whole.drop_last() == s + after.drop_last());
        lemma_trimmed_end(s, after.drop_last());
    }
}

/// White space around a text does not matter to what is left of it.
pub proof fn lemma_trimmed(before: Seq<char>, s: Seq<char>, after: Seq<char>)
    requires
        blank(before),
        blank(after),
        tight(s),
    ensures
        trimmed(before + s + after) == s,
{
    assert(before + s + after == before + (s + after));
    lemma_trimmed_start(before, s + after);
    assert((s + after).first() == s.first());
    lemma_trimmed_end(s, after);
}

/// White space is these characters and no others. A blank text is made of them
/// alone. A tight text has at least one character, and neither its first nor its
/// last is white space.
pub proof fn law_white_space(c: char, s: Seq<char>, d: char)
    ensures
        white_space(c) <==> c == '\t' || c == '\n' || c == '\u{b}' || c == '\u{c}' || c == '\r' || c
            == ' ' || c == '\u{85}' || c == '\u{a0}' || c == '\u{1680}' || '\u{2000}' <= c
            <= '\u{200a}' || c == '\u{2028}' || c == '\u{2029}' || c == '\u{202f}' || c
            == '\u{205f}' || c == '\u{3000}',
        blank(Seq::<char>::empty()),
        blank(s.push(c)) <==> blank(s) && white_space(c),
        !tight(Seq::<char>::empty()),
        tight(seq![c]) <==> !white_space(c),
        tight(seq![c] + s + seq![d]) <==> !white_space(c) && !white_space(d),
{
    let longer = s.push(c);
    assert(longer[s.len() as int] == c);
    if blank(longer) {
        assert forall|i: int| 0 <= i < s.len() implies white_space(#[trigger] s[i]) by {
            assert(longer[i] == s[i]);
        }
    }
}

proof fn lemma_split_start(s: Seq<char>) -> (before: Seq<char>)
    ensures
        blank(before),
        s == before + trimmed_start(s),
        trimmed_start(s).len() > 0 ==> !white_space(trimmed_start(s).first()),
    decreases s.len(),
{
    if s.len() > 0 && white_space(s.first()) {
        let rest = lemma_split_start(s.drop_first());
        let before = seq![s.first()] + rest;
        assert(s == seq![s.first()] + s.drop_first());
        assert(s == before + trimmed_start(s));
        assert forall|i: int| 0 <= i < before.len() implies white_space(#[trigger] before[i]) by {
            if i > 0 {
                assert(before[i] == rest[i - 1]);
            }
        }
        before
    } else {
        assert(s == Seq::<char>::empty() + s);
        Seq::empty()
    }
}

proof fn lemma_split_end(s: Seq<char>) -> (after: Seq<char>)
    ensures
        blank(after),
        s == trimmed_end(s) + after,
        trimmed_end(s).len() > 0 ==> !white_space(trimmed_end(s).last()),
        trimmed_end(s).len() > 0 ==> trimmed_end(s).first() == s.first(),
    decreases s.len(),
{
    if s.len() > 0 && white_space(s.last()) {
        let rest = lemma_split_end(s.drop_last());
        let after = rest.push(s.last());
        assert(s == s.drop_last().push(s.last()));
        assert(s == trimmed_end(s) + after);
        assert forall|i: int| 0 <= i < after.len() implies white_space(#[trigger] after[i]) by {
            if i < rest.len() {
                assert(after[i] == rest[i]);
            }
        }
        after
    } else {
        assert(s == s + Seq::<char>::empty());
        Seq::empty()
    }
}

/// A text is what is left of it, with white space around it. What is left has
/// none at its ends.
pub proof fn law_trimmed_text(s: Seq<char>) -> (around: (Seq<char>, Seq<char>))
    ensures
        blank(around.0),
        blank(around.1),
        s == around.0 + trimmed(s) + around.1,
        trimmed(s).len() == 0 || tight(trimmed(s)),
        trimmed(s).len() == 0 <==> blank(s),
{
    let before = lemma_split_start(s);
    let after = lemma_split_end(trimmed_start(s));
    assert(s == before + trimmed(s) + after);
    if trimmed(s).len() == 0 {
        assert forall|i: int| 0 <= i < s.len() implies white_space(#[trigger] s[i]) by {
            if i < before.len() {
                assert(s[i] == before[i]);
            } else {
                assert(s[i] == after[i - before.len()]);
            }
        }
    } else {
        assert(s[before.len() as int] == trimmed(s).first());
    }
    (before, after)
}

} // verus!
