//! Rewriting a text from left to right by a rule that says, for each index,
//! whether a match begins there, where it ends and what replaces it.

use crate::text::append_chars;
use vstd::prelude::*;

verus! {

/// A match: the index behind it and the text that replaces it.
pub struct Found {
    pub end: usize,
    pub replacement: Vec<char>,
}

/// A match as plain values.
pub struct FoundView {
    pub end: int,
    pub replacement: Seq<char>,
}

/// A rule: the match that begins at an index of a text, if one does.
pub type Rule = spec_fn(Seq<char>, int) -> Option<FoundView>;

/// View of what a rule's executable form hands back.
pub open spec fn found_view(f: Option<Found>) -> Option<FoundView> {
    match f {
        Some(x) => Some(FoundView { end: x.end as int, replacement: x.replacement@ }),
        None => None,
    }
}

/// The text from `i` on, rewritten: where a match that is not empty begins,
/// its replacement is put and the scan goes on behind the match; any other
/// character is kept. Matches are thus taken leftmost first and never
/// overlap.
pub open spec fn rewrite_from(s: Seq<char>, i: int, rule: Rule) -> Seq<char>
    decreases s.len() - i,
{
    if i < 0 || i >= s.len() {
        Seq::<char>::empty()
    } else {
        match rule(s, i) {
            Some(f) => if i < f.end <= s.len() {
                f.replacement + rewrite_from(s, f.end, rule)
            } else {
                seq![s[i]] + rewrite_from(s, i + 1, rule)
            },
            None => seq![s[i]] + rewrite_from(s, i + 1, rule),
        }
    }
}

/// The whole text rewritten by `rule`.
pub open spec fn rewrite(s: Seq<char>, rule: Rule) -> Seq<char> {
    rewrite_from(s, 0, rule)
}

/// Rewrites `s` by the rule that `find` computes.
pub fn rewrite_exec<F: Fn(&Vec<char>, usize) -> Option<Found>>(
    s: &Vec<char>,
    find: F,
    Ghost(rule): Ghost<Rule>,
) -> (r: Vec<char>)
    requires
        forall|i: usize| i < s.len() ==> call_requires(find, (s, i)),
        forall|i: usize, o: Option<Found>|
            call_ensures(find, (s, i), o) ==> found_view(o) == rule(s@, i as int),
    ensures
        r@ == rewrite(s@, rule),
{
    let mut out: Vec<char> = Vec::new();
    let mut i: usize = 0;
    proof {
        assert(out@ + rewrite_from(s@, 0, rule) =~= rewrite_from(s@, 0, rule));
    }
    while i < s.len()
        invariant
            i <= s.len(),
            forall|i: usize| i < s.len() ==> call_requires(find, (s, i)),
            forall|i: usize, o: Option<Found>|
                call_ensures(find, (s, i), o) ==> found_view(o) == rule(s@, i as int),
            out@ + rewrite_from(s@, i as int, rule) == rewrite_from(s@, 0, rule),
        decreases s.len() - i,
    {
        let ghost before = out@;
        let found = find(s, i);
        match found {
            Some(x) => {
                if i < x.end && x.end <= s.len() {
                    append_chars(&mut out, &x.replacement);
                    proof {
                        assert(out@ + rewrite_from(s@, x.end as int, rule) =~= before + (
                        x.replacement@ + rewrite_from(s@, x.end as int, rule)));
                    }
                    i = x.end;
                    continue ;
                }
            },
            None => {},
        }
        out.push(s[i]);
        proof {
            assert(out@ + rewrite_from(s@, i + 1, rule) =~= before + (seq![s@[i as int]]
                + rewrite_from(s@, i + 1, rule)));
        }
        i += 1;
    }
    proof {
        assert(out@ + rewrite_from(s@, s.len() as int, rule) =~= out@);
    }
    out
}

} // verus!
