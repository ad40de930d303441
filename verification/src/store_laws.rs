//! Crash safety of the credential store. A save builds the full new
//! backing content, writes it to a fresh location, and only then atomically
//! replaces the original; so whatever byte offset a crash hits, a later
//! load sees either the old content or the new content in full, never a
//! mixture. This module proves that either outcome loads to a whole
//! record: the old one, or exactly the record that was being saved.
use vstd::prelude::*;

use crate::codec::all_digits;
use crate::codec::dec_seq;
use crate::codec::escape_seq;
use crate::codec::is_special_char;
use crate::codec::lemma_dec_seq_digits;
use crate::codec::lemma_dec_val_of_dec_seq;
use crate::codec::lemma_escape_seq_concat;
use crate::codec::lemma_escape_seq_identity;
use crate::codec::parse_u64_all;
use crate::env::access_key;
use crate::env::created_key;
use crate::env::expires_key;
use crate::env::refresh_key;
use crate::env::spec_format_key;
use crate::env::spec_load_token;
use crate::env::spec_update_token;
use crate::env::timestamp_or_zero;
use crate::env::upper_seq;
use crate::env::TokenLoad;
use crate::env::UserTokenView;
use crate::kvline::join_lines;
use crate::kvline::keys_independent;
use crate::codec::lemma_differing_char_no_prefix;
use crate::kvline::lemma_lines_have_no_nl;
use crate::kvline::lemma_lines_of_join;
use crate::kvline::lemma_lookup_after_update_other;
use crate::kvline::lemma_lookup_after_update_same;
use crate::kvline::lemma_lookup_drop_trailing_empty;
use crate::kvline::lemma_update_lines_no_nl;
use crate::kvline::lookup_lines;
use crate::kvline::spec_lines;
use crate::kvline::update_lines;
use crate::kvline::KeyLookup;

verus! {

/// Upper-casing a sequence without lower-case letters changes nothing.
proof fn lemma_upper_identity(s: Seq<char>)
    requires
        forall|i: int| 0 <= i < s.len() ==> !('a' <= s[i] && s[i] <= 'z'),
    ensures
        upper_seq(s) == s,
{
    assert(upper_seq(s) =~= s);
}

/// A stored-key sequence has no lower-case letter and no special
/// character; such keys escape to themselves after the prefix.
spec fn plain_key_chars(key: Seq<char>) -> bool {
    forall|i: int|
        0 <= i < key.len() ==> !is_special_char(key[i]) && !('a' <= key[i] && key[i] <= 'z')
}

/// The escaped form of a formatted key: the escaped prefix, an
/// underscore, then the key itself.
proof fn lemma_esc_fmt_key(prefix: Option<Seq<char>>, key: Seq<char>)
    requires
        plain_key_chars(key),
    ensures
        escape_seq(spec_format_key(prefix, key)) == match prefix {
            Some(p) => escape_seq(p) + seq!['_'] + key,
            None => key,
        },
{
    lemma_upper_identity(key);
    match prefix {
        Some(p) => {
            let mid = seq!['_'] + key;
            assert(spec_format_key(prefix, key) =~= p + mid);
            lemma_escape_seq_concat(p, mid);
            assert(forall|i: int| 0 <= i < mid.len() ==> !is_special_char(mid[i]));
            lemma_escape_seq_identity(mid);
            assert(escape_seq(p) + (seq!['_'] + key) =~= escape_seq(p) + seq!['_'] + key);
        },
        None => {
            lemma_escape_seq_identity(key);
        },
    }
}

/// Two stored keys whose tails differ at some position are independent in
/// both directions.
proof fn lemma_pair_independent(prefix: Option<Seq<char>>, key1: Seq<char>, key2: Seq<char>, d: int)
    requires
        plain_key_chars(key1),
        plain_key_chars(key2),
        0 <= d < key1.len(),
        d < key2.len(),
        key1[d] != key2[d],
    ensures
        keys_independent(spec_format_key(prefix, key1), spec_format_key(prefix, key2)),
        keys_independent(spec_format_key(prefix, key2), spec_format_key(prefix, key1)),
{
    lemma_esc_fmt_key(prefix, key1);
    lemma_esc_fmt_key(prefix, key2);
    let e1 = escape_seq(spec_format_key(prefix, key1));
    let e2 = escape_seq(spec_format_key(prefix, key2));
    let base: int = match prefix {
        Some(p) => escape_seq(p).len() as int + 1,
        None => 0,
    };
    let i = base + d;
    assert(e1[i] == key1[d]);
    assert(e2[i] == key2[d]);
    assert((e1 + seq!['='])[i] == e1[i]);
    assert((e2 + seq!['='])[i] == e2[i]);
    lemma_differing_char_no_prefix(e1 + seq!['='], e2, i);
    lemma_differing_char_no_prefix(e2 + seq!['='], e1, i);
}

/// The four stored keys of a credential record are pairwise independent.
proof fn lemma_token_keys_independent(prefix: Option<Seq<char>>)
    ensures
        keys_independent(access_key(prefix), refresh_key(prefix)),
        keys_independent(refresh_key(prefix), access_key(prefix)),
        keys_independent(access_key(prefix), created_key(prefix)),
        keys_independent(created_key(prefix), access_key(prefix)),
        keys_independent(access_key(prefix), expires_key(prefix)),
        keys_independent(expires_key(prefix), access_key(prefix)),
        keys_independent(refresh_key(prefix), created_key(prefix)),
        keys_independent(created_key(prefix), refresh_key(prefix)),
        keys_independent(refresh_key(prefix), expires_key(prefix)),
        keys_independent(expires_key(prefix), refresh_key(prefix)),
        keys_independent(created_key(prefix), expires_key(prefix)),
        keys_independent(expires_key(prefix), created_key(prefix)),
{
    reveal_strlit("ACCESS_TOKEN");
    reveal_strlit("REFRESH_TOKEN");
    reveal_strlit("TOKEN_CREATED_AT");
    reveal_strlit("TOKEN_EXPIRES_AT");
    let a = "ACCESS_TOKEN"@;
    let r = "REFRESH_TOKEN"@;
    let c = "TOKEN_CREATED_AT"@;
    let e = "TOKEN_EXPIRES_AT"@;
    assert(plain_key_chars(a));
    assert(plain_key_chars(r));
    assert(plain_key_chars(c));
    assert(plain_key_chars(e));
    lemma_pair_independent(prefix, a, r, 0);
    lemma_pair_independent(prefix, a, c, 0);
    lemma_pair_independent(prefix, a, e, 0);
    lemma_pair_independent(prefix, r, c, 0);
    lemma_pair_independent(prefix, r, e, 0);
    lemma_pair_independent(prefix, c, e, 6);
}

/// A formatted key contains no newline when the prefix contains none.
proof fn lemma_fmt_key_no_nl(prefix: Option<Seq<char>>, key: Seq<char>)
    requires
        plain_key_chars(key),
        forall|i: int| 0 <= i < key.len() ==> key[i] != '\n',
        prefix matches Some(p) ==> forall|i: int| 0 <= i < p.len() ==> p[i] != '\n',
    ensures
        forall|i: int|
            0 <= i < spec_format_key(prefix, key).len() ==> spec_format_key(prefix, key)[i] != '\n',
{
    lemma_upper_identity(key);
    match prefix {
        Some(p) => {
            assert(spec_format_key(prefix, key) =~= p + seq!['_'] + key);
        },
        None => {
            assert(spec_format_key(prefix, key) =~= key);
        },
    }
}

/// Digits are not newlines.
proof fn lemma_digits_no_nl(s: Seq<char>)
    requires
        all_digits(s),
    ensures
        forall|i: int| 0 <= i < s.len() ==> s[i] != '\n',
{
    assert forall|i: int| 0 <= i < s.len() implies s[i] != '\n' by {
        assert(crate::codec::is_digit_char(s[i]));
    }
}

/// Saving a record and then loading from the new content yields exactly
/// that record, whatever stood in the store before, for any prefix and
/// any token whose text fields stay on one line.
pub proof fn lemma_update_token_then_load(
    prefix: Option<Seq<char>>,
    c: Seq<char>,
    t: UserTokenView,
)
    requires
        prefix matches Some(p) ==> forall|i: int| 0 <= i < p.len() ==> p[i] != '\n',
        forall|i: int| 0 <= i < t.access_token.len() ==> t.access_token[i] != '\n',
        forall|i: int| 0 <= i < t.refresh_token.len() ==> t.refresh_token[i] != '\n',
    ensures
        spec_load_token(prefix, spec_update_token(prefix, c, t)) == TokenLoad::Loaded(t),
{
    reveal_strlit("ACCESS_TOKEN");
    reveal_strlit("REFRESH_TOKEN");
    reveal_strlit("TOKEN_CREATED_AT");
    reveal_strlit("TOKEN_EXPIRES_AT");
    let k1 = access_key(prefix);
    let k2 = refresh_key(prefix);
    let k3 = created_key(prefix);
    let k4 = expires_key(prefix);
    let v1 = t.access_token;
    let v2 = t.refresh_token;
    let v3 = dec_seq(t.created_at as nat);
    let v4 = dec_seq(t.expires_at as nat);
    let ls0 = spec_lines(c);
    let ls1 = update_lines(ls0, k1, v1);
    let ls2 = update_lines(ls1, k2, v2);
    let ls3 = update_lines(ls2, k3, v3);
    let ls4 = update_lines(ls3, k4, v4);
    let c4 = join_lines(ls4);

    // no line anywhere contains a newline
    assert(plain_key_chars("ACCESS_TOKEN"@));
    assert(plain_key_chars("REFRESH_TOKEN"@));
    assert(plain_key_chars("TOKEN_CREATED_AT"@));
    assert(plain_key_chars("TOKEN_EXPIRES_AT"@));
    lemma_fmt_key_no_nl(prefix, "ACCESS_TOKEN"@);
    lemma_fmt_key_no_nl(prefix, "REFRESH_TOKEN"@);
    lemma_fmt_key_no_nl(prefix, "TOKEN_CREATED_AT"@);
    lemma_fmt_key_no_nl(prefix, "TOKEN_EXPIRES_AT"@);
    lemma_dec_seq_digits(t.created_at as nat);
    lemma_dec_seq_digits(t.expires_at as nat);
    lemma_digits_no_nl(v3);
    lemma_digits_no_nl(v4);
    lemma_lines_have_no_nl(c);
    lemma_update_lines_no_nl(ls0, k1, v1);
    lemma_update_lines_no_nl(ls1, k2, v2);
    lemma_update_lines_no_nl(ls2, k3, v3);
    lemma_update_lines_no_nl(ls3, k4, v4);

    // lookups in the final line list
    lemma_token_keys_independent(prefix);
    lemma_lookup_after_update_same(ls0, k1, v1);
    lemma_lookup_after_update_other(ls1, k2, v2, k1);
    lemma_lookup_after_update_other(ls2, k3, v3, k1);
    lemma_lookup_after_update_other(ls3, k4, v4, k1);
    assert(lookup_lines(ls4, k1) == KeyLookup::Found(v1));
    lemma_lookup_after_update_same(ls1, k2, v2);
    lemma_lookup_after_update_other(ls2, k3, v3, k2);
    lemma_lookup_after_update_other(ls3, k4, v4, k2);
    assert(lookup_lines(ls4, k2) == KeyLookup::Found(v2));
    lemma_lookup_after_update_same(ls2, k3, v3);
    lemma_lookup_after_update_other(ls3, k4, v4, k3);
    assert(lookup_lines(ls4, k3) == KeyLookup::Found(v3));
    lemma_lookup_after_update_same(ls3, k4, v4);
    assert(lookup_lines(ls4, k4) == KeyLookup::Found(v4));

    // splitting the joined content gives the same lookups back
    lemma_lines_of_join(ls4);
    if ls4.len() > 0 && ls4.last().len() == 0 {
        lemma_lookup_drop_trailing_empty(ls4, k1);
        lemma_lookup_drop_trailing_empty(ls4, k2);
        lemma_lookup_drop_trailing_empty(ls4, k3);
        lemma_lookup_drop_trailing_empty(ls4, k4);
    }
    assert(lookup_lines(spec_lines(c4), k1) == KeyLookup::Found(v1));
    assert(lookup_lines(spec_lines(c4), k2) == KeyLookup::Found(v2));
    assert(lookup_lines(spec_lines(c4), k3) == KeyLookup::Found(v3));
    assert(lookup_lines(spec_lines(c4), k4) == KeyLookup::Found(v4));

    // the timestamps read back to the numbers that were written
    lemma_dec_val_of_dec_seq(t.created_at as nat);
    lemma_dec_val_of_dec_seq(t.expires_at as nat);
    assert(parse_u64_all(v3) == Some(t.created_at as nat));
    assert(parse_u64_all(v4) == Some(t.expires_at as nat));
    assert(timestamp_or_zero(lookup_lines(spec_lines(c4), k3)) == t.created_at);
    assert(timestamp_or_zero(lookup_lines(spec_lines(c4), k4)) == t.expires_at);

    assert(spec_load_token(prefix, c4) == TokenLoad::Loaded(
        UserTokenView {
            access_token: v1,
            refresh_token: v2,
            created_at: t.created_at,
            expires_at: t.expires_at,
        },
    ));
    assert(UserTokenView {
        access_token: v1,
        refresh_token: v2,
        created_at: t.created_at,
        expires_at: t.expires_at,
    } =~= t);
}

/// What a reader sees after a save that may have crashed: the save writes
/// the whole new content to a fresh location and atomically replaces the
/// original only at the end, so the original is visible up to the moment
/// of replacement and the new content after it. A crash while the fresh
/// copy is being written leaves the original untouched.
pub open spec fn visible_after_crash(old_c: Seq<char>, new_c: Seq<char>, replaced: bool) -> Seq<
    char,
> {
    if replaced {
        new_c
    } else {
        old_c
    }
}

/// A save interrupted at any byte offset, followed by a load, yields
/// either the old record or the new record in full — never a mixture.
/// The byte offset the crash hit (`crash_point`) plays no part in the
/// outcome: only whether the atomic replacement had happened.
pub proof fn lemma_save_crash_safe(
    prefix: Option<Seq<char>>,
    c: Seq<char>,
    t: UserTokenView,
    crash_point: nat,
    replaced: bool,
)
    requires
        prefix matches Some(p) ==> forall|i: int| 0 <= i < p.len() ==> p[i] != '\n',
        forall|i: int| 0 <= i < t.access_token.len() ==> t.access_token[i] != '\n',
        forall|i: int| 0 <= i < t.refresh_token.len() ==> t.refresh_token[i] != '\n',
    ensures
        spec_load_token(
            prefix,
            visible_after_crash(c, spec_update_token(prefix, c, t), replaced),
        ) == if replaced {
            TokenLoad::Loaded(t)
        } else {
            spec_load_token(prefix, c)
        },
{
    if replaced {
        lemma_update_token_then_load(prefix, c, t);
    }
}

} // verus!
