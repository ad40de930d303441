//! The line format of the credential backing store: one `KEY="value"` pair
//! per line, values escaped so that embedded quotes cannot corrupt the line
//! structure. This module gives the mathematical model — splitting into
//! lines, joining, looking a key up, replacing or appending a key's line —
//! and the lemmas that a lookup after an update behaves as a store should.
use vstd::prelude::*;

use crate::codec::escape_seq;
use crate::codec::is_prefix_of;
use crate::codec::is_special_char;
use crate::codec::lemma_prefixes_comparable;
use crate::codec::lemma_differing_char_no_prefix;
use crate::codec::lemma_scan_escaped;
use crate::codec::scan_quoted;

verus! {

/// First line of `s` and, when a newline was found, what follows it.
pub open spec fn split_at_nl(s: Seq<char>) -> (Seq<char>, Option<Seq<char>>)
    decreases s.len(),
{
    if s.len() == 0 {
        (Seq::empty(), None)
    } else if s[0] == '\n' {
        (Seq::empty(), Some(s.drop_first()))
    } else {
        let p = split_at_nl(s.drop_first());
        (seq![s[0]] + p.0, p.1)
    }
}

pub proof fn lemma_split_at_nl_facts(s: Seq<char>)
    ensures
        forall|i: int| 0 <= i < split_at_nl(s).0.len() ==> split_at_nl(s).0[i] != '\n',
        match split_at_nl(s).1 {
            Some(r) => r.len() < s.len() && split_at_nl(s).0 + seq!['\n'] + r == s,
            None => split_at_nl(s).0 == s,
        },
    decreases s.len(),
{
    if s.len() == 0 {
        assert(split_at_nl(s).0 =~= s);
    } else if s[0] == '\n' {
        assert(split_at_nl(s).0 + seq!['\n'] + s.drop_first() =~= s);
    } else {
        lemma_split_at_nl_facts(s.drop_first());
        let p = split_at_nl(s.drop_first());
        match p.1 {
            Some(r) => {
                assert(p.0 + seq!['\n'] + r == s.drop_first());
                assert(seq![s[0]] + (p.0 + seq!['\n'] + r) =~= s);
                assert((seq![s[0]] + p.0) + seq!['\n'] + r =~= seq![s[0]] + (p.0 + seq!['\n']
                    + r));
            },
            None => {
                assert(seq![s[0]] + p.0 =~= s);
            },
        }
    }
}

/// The lines of a text, in order; a trailing newline ends the last line
/// rather than opening an empty one.
pub open spec fn spec_lines(s: Seq<char>) -> Seq<Seq<char>>
    decreases s.len(),
    via spec_lines_decreases
{
    if s.len() == 0 {
        Seq::empty()
    } else {
        let p = split_at_nl(s);
        match p.1 {
            None => seq![p.0],
            Some(r) => seq![p.0] + spec_lines(r),
        }
    }
}

#[via_fn]
proof fn spec_lines_decreases(s: Seq<char>) {
    lemma_split_at_nl_facts(s);
}

/// No line contains a newline.
pub proof fn lemma_lines_have_no_nl(s: Seq<char>)
    ensures
        forall|i: int, j: int|
            0 <= i < spec_lines(s).len() && 0 <= j < spec_lines(s)[i].len() ==> spec_lines(
                s,
            )[i][j] != '\n',
    decreases s.len(),
{
    if s.len() == 0 {
    } else {
        lemma_split_at_nl_facts(s);
        let p = split_at_nl(s);
        let ll = spec_lines(s);
        match p.1 {
            None => {
                assert(ll[0] == p.0);
            },
            Some(r) => {
                lemma_lines_have_no_nl(r);
                assert(ll[0] == p.0);
                assert(forall|i: int| 1 <= i < ll.len() ==> ll[i] == spec_lines(r)[i - 1]);
            },
        }
    }
}

/// Lines joined back with single newlines, no trailing newline.
pub open spec fn join_lines(ls: Seq<Seq<char>>) -> Seq<char>
    decreases ls.len(),
{
    if ls.len() == 0 {
        Seq::empty()
    } else if ls.len() == 1 {
        ls[0]
    } else {
        ls[0] + seq!['\n'] + join_lines(ls.drop_first())
    }
}

pub proof fn lemma_join_lines_push(ls: Seq<Seq<char>>, l: Seq<char>)
    ensures
        join_lines(ls.push(l)) == if ls.len() == 0 {
            l
        } else {
            join_lines(ls) + seq!['\n'] + l
        },
    decreases ls.len(),
{
    let u = ls.push(l);
    if ls.len() == 0 {
        assert(u.len() == 1);
        assert(u[0] == l);
    } else if ls.len() == 1 {
        assert(u.drop_first() =~= seq![l]);
        assert(join_lines(seq![l]) == l);
        assert(join_lines(u) == u[0] + seq!['\n'] + l);
        assert(u[0] == ls[0]);
        assert(join_lines(ls) == ls[0]);
    } else {
        assert(u.drop_first() =~= ls.drop_first().push(l));
        lemma_join_lines_push(ls.drop_first(), l);
        assert(join_lines(u) == u[0] + seq!['\n'] + (join_lines(ls.drop_first()) + seq!['\n'] + l));
        assert(u[0] == ls[0]);
        assert(ls[0] + seq!['\n'] + (join_lines(ls.drop_first()) + seq!['\n'] + l) =~= (ls[0]
            + seq!['\n'] + join_lines(ls.drop_first())) + seq!['\n'] + l);
    }
}

proof fn lemma_split_no_nl(s: Seq<char>)
    requires
        forall|i: int| 0 <= i < s.len() ==> s[i] != '\n',
    ensures
        split_at_nl(s) == (s, Option::<Seq<char>>::None),
    decreases s.len(),
{
    if s.len() == 0 {
        assert(split_at_nl(s).0 =~= s);
    } else {
        lemma_split_no_nl(s.drop_first());
        assert(seq![s[0]] + s.drop_first() =~= s);
    }
}

proof fn lemma_split_with_nl(a: Seq<char>, b: Seq<char>)
    requires
        forall|i: int| 0 <= i < a.len() ==> a[i] != '\n',
    ensures
        split_at_nl(a + seq!['\n'] + b) == (a, Option::Some(b)),
    decreases a.len(),
{
    let t = a + seq!['\n'] + b;
    if a.len() == 0 {
        assert(t[0] == '\n');
        assert(t.drop_first() =~= b);
        assert(split_at_nl(t).0 =~= a);
    } else {
        assert(t[0] == a[0]);
        assert(t.drop_first() =~= a.drop_first() + seq!['\n'] + b);
        lemma_split_with_nl(a.drop_first(), b);
        assert(seq![t[0]] + a.drop_first() =~= a);
    }
}

/// Splitting a joined list of newline-free lines gives the list back,
/// except that a single trailing empty line is absorbed.
pub proof fn lemma_lines_of_join(ls: Seq<Seq<char>>)
    requires
        forall|i: int, j: int| 0 <= i < ls.len() && 0 <= j < ls[i].len() ==> ls[i][j] != '\n',
    ensures
        spec_lines(join_lines(ls)) == if ls.len() > 0 && ls.last().len() == 0 {
            ls.drop_last()
        } else {
            ls
        },
    decreases ls.len(),
{
    if ls.len() == 0 {
        assert(spec_lines(join_lines(ls)) =~= ls);
    } else if ls.len() == 1 {
        let l = ls[0];
        if l.len() == 0 {
            assert(spec_lines(join_lines(ls)) =~= ls.drop_last());
        } else {
            lemma_split_no_nl(l);
            assert(spec_lines(join_lines(ls)) =~= ls);
        }
    } else {
        let t = join_lines(ls);
        assert(t == ls[0] + seq!['\n'] + join_lines(ls.drop_first()));
        lemma_split_with_nl(ls[0], join_lines(ls.drop_first()));
        lemma_lines_of_join(ls.drop_first());
        assert(t.len() > 0) by {
            if ls[0].len() == 0 {
                assert(t[ls[0].len() as int] == '\n');
            }
        }
        let tail = ls.drop_first();
        if tail.len() > 0 && tail.last().len() == 0 {
            assert(ls.last() == tail.last());
            assert(seq![ls[0]] + tail.drop_last() =~= ls.drop_last());
        } else {
            assert(seq![ls[0]] + tail =~= ls);
        }
    }
}

/// A newline-free first line splits off cleanly.
pub proof fn lemma_lines_split_step(a: Seq<char>, b: Seq<char>)
    requires
        forall|i: int| 0 <= i < a.len() ==> a[i] != '\n',
    ensures
        spec_lines(a + seq!['\n'] + b) == seq![a] + spec_lines(b),
{
    let t = a + seq!['\n'] + b;
    lemma_split_with_nl(a, b);
    assert(t.len() > 0) by {
        assert(t[a.len() as int] == '\n');
    }
}

/// A nonempty newline-free text is one line.
pub proof fn lemma_lines_single(a: Seq<char>)
    requires
        a.len() > 0,
        forall|i: int| 0 <= i < a.len() ==> a[i] != '\n',
    ensures
        spec_lines(a) == seq![a],
{
    lemma_split_no_nl(a);
}

/// Replacing in a list where nothing matches changes nothing.
pub proof fn lemma_replace_identity_when_no_match(ls: Seq<Seq<char>>, key: Seq<char>, nl: Seq<char>)
    requires
        !any_line_matches(ls, key),
    ensures
        replace_lines(ls, key, nl) == ls,
    decreases ls.len(),
{
    if ls.len() == 0 {
        assert(replace_lines(ls, key, nl) =~= ls);
    } else {
        lemma_replace_identity_when_no_match(ls.drop_first(), key, nl);
        assert(replace_lines(ls, key, nl) =~= seq![ls[0]] + ls.drop_first());
        assert(seq![ls[0]] + ls.drop_first() =~= ls);
    }
}

/// The stored line for a key and a value.
pub open spec fn line_for(key: Seq<char>, value: Seq<char>) -> Seq<char> {
    escape_seq(key) + seq!['=', '"'] + escape_seq(value) + seq!['"']
}

/// Whether an update matches this line: it begins with the escaped key.
pub open spec fn line_matches_key(line: Seq<char>, key: Seq<char>) -> bool {
    is_prefix_of(escape_seq(key), line)
}

/// Whether a lookup considers this line: it begins with the escaped key
/// followed by `=`.
pub open spec fn line_is_binding(line: Seq<char>, key: Seq<char>) -> bool {
    is_prefix_of(escape_seq(key) + seq!['='], line)
}

/// The value bound by this line, if the line is well formed for this key.
pub open spec fn line_value(line: Seq<char>, key: Seq<char>) -> Option<Seq<char>> {
    let p = escape_seq(key) + seq!['=', '"'];
    if is_prefix_of(p, line) {
        match scan_quoted(line.skip(p.len() as int)) {
            Some(q) => if q.1.len() == 0 {
                Some(q.0)
            } else {
                None
            },
            None => None,
        }
    } else {
        None
    }
}

/// What a lookup finds.
pub enum KeyLookup {
    /// A binding line was found and carried this (unescaped) value.
    Found(Seq<char>),
    /// A binding line was found but its value part is not well formed.
    Malformed,
    /// No line binds the key.
    Missing,
}

/// First binding line wins.
pub open spec fn lookup_lines(ls: Seq<Seq<char>>, key: Seq<char>) -> KeyLookup
    decreases ls.len(),
{
    if ls.len() == 0 {
        KeyLookup::Missing
    } else if line_is_binding(ls[0], key) {
        match line_value(ls[0], key) {
            Some(v) => KeyLookup::Found(v),
            None => KeyLookup::Malformed,
        }
    } else {
        lookup_lines(ls.drop_first(), key)
    }
}

/// Does any line begin with the escaped key?
pub open spec fn any_line_matches(ls: Seq<Seq<char>>, key: Seq<char>) -> bool
    decreases ls.len(),
{
    if ls.len() == 0 {
        false
    } else {
        line_matches_key(ls[0], key) || any_line_matches(ls.drop_first(), key)
    }
}

/// Every line that begins with the escaped key replaced by the new line.
pub open spec fn replace_lines(ls: Seq<Seq<char>>, key: Seq<char>, nl: Seq<char>) -> Seq<Seq<char>>
    decreases ls.len(),
{
    if ls.len() == 0 {
        Seq::empty()
    } else {
        let h = if line_matches_key(ls[0], key) {
            nl
        } else {
            ls[0]
        };
        seq![h] + replace_lines(ls.drop_first(), key, nl)
    }
}

/// The store update: replace the key's lines, or append one.
pub open spec fn update_lines(ls: Seq<Seq<char>>, key: Seq<char>, value: Seq<char>) -> Seq<
    Seq<char>,
> {
    if any_line_matches(ls, key) {
        replace_lines(ls, key, line_for(key, value))
    } else {
        ls.push(line_for(key, value))
    }
}

pub proof fn lemma_any_matches_push(ls: Seq<Seq<char>>, key: Seq<char>, l: Seq<char>)
    ensures
        any_line_matches(ls.push(l), key) == (any_line_matches(ls, key) || line_matches_key(
            l,
            key,
        )),
    decreases ls.len(),
{
    let u = ls.push(l);
    if ls.len() == 0 {
        assert(u[0] == l);
        assert(u.drop_first() =~= Seq::<Seq<char>>::empty());
        assert(!any_line_matches(u.drop_first(), key));
        assert(!any_line_matches(ls, key));
        assert(any_line_matches(u, key) == line_matches_key(l, key));
    } else {
        assert(u[0] == ls[0]);
        assert(u.drop_first() =~= ls.drop_first().push(l));
        lemma_any_matches_push(ls.drop_first(), key, l);
        assert(any_line_matches(u, key) == (line_matches_key(ls[0], key) || any_line_matches(
            u.drop_first(),
            key,
        )));
        assert(any_line_matches(ls, key) == (line_matches_key(ls[0], key) || any_line_matches(
            ls.drop_first(),
            key,
        )));
    }
}

pub proof fn lemma_replace_lines_push(ls: Seq<Seq<char>>, key: Seq<char>, nl: Seq<char>, l: Seq<char>)
    ensures
        replace_lines(ls.push(l), key, nl) == replace_lines(ls, key, nl).push(
            if line_matches_key(l, key) {
                nl
            } else {
                l
            },
        ),
    decreases ls.len(),
{
    let u = ls.push(l);
    let h = if line_matches_key(l, key) {
        nl
    } else {
        l
    };
    if ls.len() == 0 {
        assert(u[0] == l);
        assert(u.drop_first() =~= Seq::<Seq<char>>::empty());
        assert(replace_lines(u.drop_first(), key, nl) =~= Seq::<Seq<char>>::empty());
        assert(replace_lines(u, key, nl) == seq![h] + replace_lines(u.drop_first(), key, nl));
        assert(replace_lines(ls, key, nl) =~= Seq::<Seq<char>>::empty());
        assert(seq![h] + Seq::<Seq<char>>::empty() =~= replace_lines(ls, key, nl).push(h));
    } else {
        assert(u[0] == ls[0]);
        assert(u.drop_first() =~= ls.drop_first().push(l));
        lemma_replace_lines_push(ls.drop_first(), key, nl, l);
        let h0 = if line_matches_key(ls[0], key) {
            nl
        } else {
            ls[0]
        };
        assert(replace_lines(u, key, nl) == seq![h0] + replace_lines(ls.drop_first().push(l), key, nl));
        assert(seq![h0] + replace_lines(ls.drop_first(), key, nl).push(h) =~= (seq![h0]
            + replace_lines(ls.drop_first(), key, nl)).push(h));
        assert(replace_lines(ls, key, nl) == seq![h0] + replace_lines(ls.drop_first(), key, nl));
    }
}

/// The written line parses back to exactly the value it was written for.
pub proof fn lemma_line_for_parses(key: Seq<char>, value: Seq<char>)
    ensures
        line_is_binding(line_for(key, value), key),
        line_matches_key(line_for(key, value), key),
        line_value(line_for(key, value), key) == Some(value),
{
    let l = line_for(key, value);
    let p = escape_seq(key) + seq!['=', '"'];
    assert(l.take((escape_seq(key) + seq!['=']).len() as int) =~= escape_seq(key) + seq!['=']);
    assert(l.take(escape_seq(key).len() as int) =~= escape_seq(key));
    assert(l.take(p.len() as int) =~= p);
    assert(l.skip(p.len() as int) =~= escape_seq(value) + seq!['"'] + Seq::<char>::empty());
    lemma_scan_escaped(value, Seq::empty());
}

/// A binding line for a key also matches it for updates.
pub proof fn lemma_binding_implies_match(line: Seq<char>, key: Seq<char>)
    requires
        line_is_binding(line, key),
    ensures
        line_matches_key(line, key),
{
    let e = escape_seq(key);
    let p = e + seq!['='];
    assert(line.take(p.len() as int) == p);
    assert forall|i: int| 0 <= i < e.len() implies line[i] == e[i] by {
        assert(line.take(p.len() as int)[i] == p[i]);
    }
    assert(line.take(e.len() as int) =~= e);
}

/// After updating a key, looking that key up finds the new value.
pub proof fn lemma_lookup_after_update_same(ls: Seq<Seq<char>>, key: Seq<char>, value: Seq<char>)
    ensures
        lookup_lines(update_lines(ls, key, value), key) == KeyLookup::Found(value),
    decreases ls.len(),
{
    lemma_line_for_parses(key, value);
    if any_line_matches(ls, key) {
        lemma_lookup_replace_same(ls, key, value);
    } else {
        lemma_lookup_push_not_matching(ls, key, line_for(key, value));
    }
}

proof fn lemma_lookup_replace_same(ls: Seq<Seq<char>>, key: Seq<char>, value: Seq<char>)
    requires
        any_line_matches(ls, key),
    ensures
        lookup_lines(replace_lines(ls, key, line_for(key, value)), key) == KeyLookup::Found(value),
    decreases ls.len(),
{
    lemma_line_for_parses(key, value);
    let nl = line_for(key, value);
    let rl = replace_lines(ls, key, nl);
    assert(rl =~= seq![
        if line_matches_key(ls[0], key) {
            nl
        } else {
            ls[0]
        },
    ] + replace_lines(ls.drop_first(), key, nl));
    if line_matches_key(ls[0], key) {
        assert(rl[0] == nl);
    } else {
        assert(rl[0] == ls[0]);
        if line_is_binding(ls[0], key) {
            lemma_binding_implies_match(ls[0], key);
        }
        assert(any_line_matches(ls.drop_first(), key));
        lemma_lookup_replace_same(ls.drop_first(), key, value);
        assert(rl.drop_first() =~= replace_lines(ls.drop_first(), key, nl));
    }
}

proof fn lemma_lookup_push_not_matching(ls: Seq<Seq<char>>, key: Seq<char>, nl: Seq<char>)
    requires
        !any_line_matches(ls, key),
        line_is_binding(nl, key),
        line_value(nl, key) == Some(line_value(nl, key)->Some_0),
    ensures
        lookup_lines(ls.push(nl), key) == KeyLookup::Found(line_value(nl, key)->Some_0),
    decreases ls.len(),
{
    let u = ls.push(nl);
    if ls.len() == 0 {
        assert(u[0] == nl);
    } else {
        if line_is_binding(ls[0], key) {
            lemma_binding_implies_match(ls[0], key);
        }
        assert(!line_matches_key(ls[0], key));
        assert(u[0] == ls[0]);
        assert(u.drop_first() =~= ls.drop_first().push(nl));
        lemma_lookup_push_not_matching(ls.drop_first(), key, nl);
    }
}

/// Two keys are independent when neither the one's escaped form reaches
/// into the other's binding prefix.
pub open spec fn keys_independent(k1: Seq<char>, k2: Seq<char>) -> bool {
    &&& !is_prefix_of(escape_seq(k2), escape_seq(k1) + seq!['='])
    &&& !is_prefix_of(escape_seq(k1) + seq!['='], escape_seq(k2))
}

/// Updating one key leaves lookups of an independent key unchanged.
pub proof fn lemma_lookup_after_update_other(
    ls: Seq<Seq<char>>,
    k2: Seq<char>,
    v2: Seq<char>,
    k1: Seq<char>,
)
    requires
        keys_independent(k1, k2),
    ensures
        lookup_lines(update_lines(ls, k2, v2), k1) == lookup_lines(ls, k1),
    decreases ls.len(),
{
    lemma_line_for_parses(k2, v2);
    if any_line_matches(ls, k2) {
        lemma_lookup_replace_other(ls, k2, line_for(k2, v2), k1);
    } else {
        lemma_lookup_push_other(ls, k2, line_for(k2, v2), k1);
    }
}

/// A line cannot at once bind `k1` and match `k2` when the keys are
/// independent; nor can `k2`'s own line bind `k1`.
proof fn lemma_no_cross_match(line: Seq<char>, k1: Seq<char>, k2: Seq<char>)
    requires
        keys_independent(k1, k2),
    ensures
        !(line_is_binding(line, k1) && line_matches_key(line, k2)),
    decreases 0int,
{
    let a = escape_seq(k1) + seq!['='];
    let b = escape_seq(k2);
    if line_is_binding(line, k1) && line_matches_key(line, k2) {
        if a.len() <= b.len() {
            lemma_prefixes_comparable(a, b, line);
        } else {
            lemma_prefixes_comparable(b, a, line);
        }
    }
}

proof fn lemma_lookup_replace_other(
    ls: Seq<Seq<char>>,
    k2: Seq<char>,
    nl: Seq<char>,
    k1: Seq<char>,
)
    requires
        keys_independent(k1, k2),
        line_matches_key(nl, k2),
    ensures
        lookup_lines(replace_lines(ls, k2, nl), k1) == lookup_lines(ls, k1),
    decreases ls.len(),
{
    if ls.len() == 0 {
    } else {
        let rl = replace_lines(ls, k2, nl);
        assert(rl =~= seq![
            if line_matches_key(ls[0], k2) {
                nl
            } else {
                ls[0]
            },
        ] + replace_lines(ls.drop_first(), k2, nl));
        lemma_no_cross_match(ls[0], k1, k2);
        lemma_no_cross_match(nl, k1, k2);
        if line_matches_key(ls[0], k2) {
            assert(rl[0] == nl);
            assert(!line_is_binding(nl, k1));
            assert(!line_is_binding(ls[0], k1));
        } else {
            assert(rl[0] == ls[0]);
        }
        lemma_lookup_replace_other(ls.drop_first(), k2, nl, k1);
        assert(rl.drop_first() =~= replace_lines(ls.drop_first(), k2, nl));
    }
}

proof fn lemma_lookup_push_other(ls: Seq<Seq<char>>, k2: Seq<char>, nl: Seq<char>, k1: Seq<char>)
    requires
        keys_independent(k1, k2),
        line_matches_key(nl, k2),
    ensures
        lookup_lines(ls.push(nl), k1) == lookup_lines(ls, k1),
    decreases ls.len(),
{
    let u = ls.push(nl);
    lemma_no_cross_match(nl, k1, k2);
    if ls.len() == 0 {
        assert(u[0] == nl);
        assert(!line_is_binding(nl, k1));
        assert(u.drop_first() =~= Seq::<Seq<char>>::empty());
        assert(lookup_lines(u.drop_first(), k1) == KeyLookup::Missing);
        assert(lookup_lines(u, k1) == KeyLookup::Missing);
        assert(lookup_lines(ls, k1) == KeyLookup::Missing);
    } else {
        assert(u[0] == ls[0]);
        assert(u.drop_first() =~= ls.drop_first().push(nl));
        lemma_lookup_push_other(ls.drop_first(), k2, nl, k1);
        if line_is_binding(ls[0], k1) {
            assert(lookup_lines(u, k1) == lookup_lines(ls, k1));
        } else {
            assert(lookup_lines(u, k1) == lookup_lines(u.drop_first(), k1));
            assert(lookup_lines(ls, k1) == lookup_lines(ls.drop_first(), k1));
        }
    }
}

/// A trailing empty line never takes part in a lookup.
pub proof fn lemma_lookup_drop_trailing_empty(ls: Seq<Seq<char>>, key: Seq<char>)
    requires
        ls.len() > 0,
        ls.last().len() == 0,
    ensures
        lookup_lines(ls.drop_last(), key) == lookup_lines(ls, key),
    decreases ls.len(),
{
    if ls.len() == 1 {
        assert(!line_is_binding(ls[0], key)) by {
            let p = escape_seq(key) + seq!['='];
            assert(p.len() >= 1);
        }
        assert(ls.drop_last() =~= Seq::<Seq<char>>::empty());
        assert(ls.drop_first() =~= Seq::<Seq<char>>::empty());
    } else {
        assert(ls.drop_last()[0] == ls[0]);
        assert(ls.drop_last().len() > 0);
        lemma_lookup_drop_trailing_empty(ls.drop_first(), key);
        assert(ls.drop_first().drop_last() =~= ls.drop_last().drop_first());
        assert(ls.drop_first().last() == ls.last());
    }
}

/// Every line of an update is newline-free when the inputs are.
pub proof fn lemma_update_lines_no_nl(ls: Seq<Seq<char>>, key: Seq<char>, value: Seq<char>)
    requires
        forall|i: int, j: int| 0 <= i < ls.len() && 0 <= j < ls[i].len() ==> ls[i][j] != '\n',
        forall|i: int| 0 <= i < key.len() ==> key[i] != '\n',
        forall|i: int| 0 <= i < value.len() ==> value[i] != '\n',
    ensures
        forall|i: int, j: int|
            0 <= i < update_lines(ls, key, value).len() && 0 <= j < update_lines(ls, key, value)[i].len()
                ==> update_lines(ls, key, value)[i][j] != '\n',
{
    lemma_escape_no_nl(key);
    lemma_escape_no_nl(value);
    let nl = line_for(key, value);
    assert(forall|j: int| 0 <= j < nl.len() ==> nl[j] != '\n');
    if any_line_matches(ls, key) {
        lemma_replace_lines_no_nl(ls, key, nl);
    } else {
        let u = ls.push(nl);
        assert(forall|i: int, j: int|
            0 <= i < u.len() && 0 <= j < u[i].len() ==> u[i][j] != '\n') by {
            assert(forall|i: int| 0 <= i < ls.len() ==> u[i] == ls[i]);
        }
    }
}

proof fn lemma_replace_lines_no_nl(ls: Seq<Seq<char>>, key: Seq<char>, nl: Seq<char>)
    requires
        forall|i: int, j: int| 0 <= i < ls.len() && 0 <= j < ls[i].len() ==> ls[i][j] != '\n',
        forall|j: int| 0 <= j < nl.len() ==> nl[j] != '\n',
    ensures
        forall|i: int, j: int|
            0 <= i < replace_lines(ls, key, nl).len() && 0 <= j < replace_lines(ls, key, nl)[i].len()
                ==> replace_lines(ls, key, nl)[i][j] != '\n',
    decreases ls.len(),
{
    if ls.len() == 0 {
    } else {
        lemma_replace_lines_no_nl(ls.drop_first(), key, nl);
        let rl = replace_lines(ls, key, nl);
        let h = if line_matches_key(ls[0], key) {
            nl
        } else {
            ls[0]
        };
        assert(rl == seq![h] + replace_lines(ls.drop_first(), key, nl));
        assert(forall|i: int, j: int| 0 <= i < rl.len() && 0 <= j < rl[i].len() ==> rl[i][j] != '\n')
            by {
            assert(rl[0] == h);
            assert(forall|i: int|
                1 <= i < rl.len() ==> rl[i] == replace_lines(ls.drop_first(), key, nl)[i - 1]);
        }
    }
}

/// Escaping introduces no newline.
pub proof fn lemma_escape_no_nl(s: Seq<char>)
    requires
        forall|i: int| 0 <= i < s.len() ==> s[i] != '\n',
    ensures
        forall|i: int| 0 <= i < escape_seq(s).len() ==> escape_seq(s)[i] != '\n',
    decreases s.len(),
{
    if s.len() == 0 {
    } else {
        lemma_escape_no_nl(s.drop_first());
        let e = escape_seq(s);
        let h = crate::codec::escape_one(s[0]);
        assert(e == h + escape_seq(s.drop_first()));
        assert(forall|i: int| 0 <= i < h.len() ==> h[i] != '\n');
        assert(forall|i: int| 0 <= i < e.len() ==> e[i] != '\n') by {
            assert(forall|i: int|
                h.len() <= i < e.len() ==> e[i] == escape_seq(s.drop_first())[i - h.len()]);
            assert(forall|i: int| 0 <= i < h.len() ==> e[i] == h[i]);
        }
    }
}

} // verus!
