//! The credential store: a durable single-record key-value text, one
//! `KEY="escaped value"` pair per line, optionally namespaced by a prefix.
//! The functions here work on the backing content as a value; reading the
//! content from disk and atomically replacing it belong to the caller.
use vstd::prelude::*;

use crate::codec::chars_to_string;
use crate::codec::dec_seq;
use crate::codec::escape_chars;
use crate::codec::escape_seq;
use crate::codec::parse_u64_all;
use crate::codec::parse_u64_chars;
use crate::codec::scan_quoted_from;
use crate::codec::str_to_chars;
use crate::codec::u64_to_dec_chars;
use crate::error::Error;
use crate::kvline::any_line_matches;
use crate::codec::is_prefix_of;
use crate::kvline::join_lines;
use crate::kvline::lemma_any_matches_push;
use crate::kvline::lemma_join_lines_push;
use crate::kvline::lemma_replace_lines_push;
use crate::kvline::line_for;
use crate::kvline::line_value;
use crate::kvline::lookup_lines;
use crate::kvline::replace_lines;
use crate::kvline::spec_lines;
use crate::kvline::update_lines;
use crate::kvline::KeyLookup;

verus! {

/// Upper-case form of one character; only ASCII letters change.
pub open spec fn upper_char(c: char) -> char {
    if c == 'a' {
        'A'
    } else if c == 'b' {
        'B'
    } else if c == 'c' {
        'C'
    } else if c == 'd' {
        'D'
    } else if c == 'e' {
        'E'
    } else if c == 'f' {
        'F'
    } else if c == 'g' {
        'G'
    } else if c == 'h' {
        'H'
    } else if c == 'i' {
        'I'
    } else if c == 'j' {
        'J'
    } else if c == 'k' {
        'K'
    } else if c == 'l' {
        'L'
    } else if c == 'm' {
        'M'
    } else if c == 'n' {
        'N'
    } else if c == 'o' {
        'O'
    } else if c == 'p' {
        'P'
    } else if c == 'q' {
        'Q'
    } else if c == 'r' {
        'R'
    } else if c == 's' {
        'S'
    } else if c == 't' {
        'T'
    } else if c == 'u' {
        'U'
    } else if c == 'v' {
        'V'
    } else if c == 'w' {
        'W'
    } else if c == 'x' {
        'X'
    } else if c == 'y' {
        'Y'
    } else if c == 'z' {
        'Z'
    } else {
        c
    }
}

pub open spec fn upper_seq(s: Seq<char>) -> Seq<char> {
    s.map_values(|c: char| upper_char(c))
}

/// The stored key for a logical field name: upper-cased, and put after the
/// namespace prefix and an underscore when a prefix is configured.
pub open spec fn spec_format_key(prefix: Option<Seq<char>>, key: Seq<char>) -> Seq<char> {
    match prefix {
        Some(p) => p + seq!['_'] + upper_seq(key),
        None => upper_seq(key),
    }
}

/// The views of a list of character vectors.
pub open spec fn views_of(ls: Seq<Vec<char>>) -> Seq<Seq<char>> {
    ls.map_values(|v: Vec<char>| v@)
}

/// Upper-case a character.
fn upper_char_exec(c: char) -> (r: char)
    ensures
        r == upper_char(c),
{
    match c {
        'a' => 'A',
        'b' => 'B',
        'c' => 'C',
        'd' => 'D',
        'e' => 'E',
        'f' => 'F',
        'g' => 'G',
        'h' => 'H',
        'i' => 'I',
        'j' => 'J',
        'k' => 'K',
        'l' => 'L',
        'm' => 'M',
        'n' => 'N',
        'o' => 'O',
        'p' => 'P',
        'q' => 'Q',
        'r' => 'R',
        's' => 'S',
        't' => 'T',
        'u' => 'U',
        'v' => 'V',
        'w' => 'W',
        'x' => 'X',
        'y' => 'Y',
        'z' => 'Z',
        _ => c,
    }
}

/// Split a text into its lines.
fn split_lines(t: &Vec<char>) -> (r: Vec<Vec<char>>)
    ensures
        views_of(r@) == spec_lines(t@),
{
    let mut out: Vec<Vec<char>> = Vec::new();
    let mut cur: Vec<char> = Vec::new();
    let mut i: usize = 0;
    let ghost mut start: int = 0;
    proof {
        assert(t@.skip(0) =~= t@);
        assert(views_of(out@) =~= Seq::<Seq<char>>::empty());
    }
    while i < t.len()
        invariant
            0 <= start <= i <= t@.len(),
            cur@ == t@.subrange(start, i as int),
            forall|k: int| 0 <= k < cur@.len() ==> cur@[k] != '\n',
            spec_lines(t@) == views_of(out@) + spec_lines(t@.skip(start)),
        decreases t@.len() - i,
    {
        let c = t[i];
        if c == '\n' {
            proof {
                assert(t@.skip(start) =~= cur@ + seq!['\n'] + t@.skip(i + 1));
                crate::kvline::lemma_lines_split_step(cur@, t@.skip(i + 1));
                assert(views_of(out@.push(cur)) =~= views_of(out@).push(cur@));
                assert(views_of(out@) + (seq![cur@] + spec_lines(t@.skip(i + 1)))
                    =~= views_of(out@).push(cur@) + spec_lines(t@.skip(i + 1)));
            }
            out.push(cur);
            cur = Vec::new();
            proof {
                start = i + 1;
                assert(cur@ =~= t@.subrange(start, i + 1));
            }
        } else {
            cur.push(c);
            proof {
                assert(cur@ =~= t@.subrange(start, i + 1));
            }
        }
        i = i + 1;
    }
    if cur.len() > 0 {
        proof {
            assert(cur@ =~= t@.skip(start));
            crate::kvline::lemma_lines_single(cur@);
            assert(views_of(out@.push(cur)) =~= views_of(out@).push(cur@));
            assert(views_of(out@) + seq![cur@] =~= views_of(out@).push(cur@));
        }
        out.push(cur);
    } else {
        proof {
            assert(t@.skip(start) =~= Seq::<char>::empty());
            assert(views_of(out@) + spec_lines(t@.skip(start)) =~= views_of(out@));
        }
    }
    out
}

/// Join lines back with single newlines.
fn join_lines_vec(ls: &Vec<Vec<char>>) -> (r: Vec<char>)
    ensures
        r@ == join_lines(views_of(ls@)),
{
    let mut out: Vec<char> = Vec::new();
    let mut i: usize = 0;
    proof {
        assert(views_of(ls@).take(0) =~= Seq::<Seq<char>>::empty());
    }
    while i < ls.len()
        invariant
            i <= ls@.len(),
            out@ == join_lines(views_of(ls@).take(i as int)),
        decreases ls@.len() - i,
    {
        if i > 0 {
            out.push('\n');
        }
        let line = &ls[i];
        let mut j: usize = 0;
        while j < line.len()
            invariant
                j <= line@.len(),
                line@ == ls@[i as int]@,
                out@ == if i == 0 {
                    line@.take(j as int)
                } else {
                    join_lines(views_of(ls@).take(i as int)) + seq!['\n'] + line@.take(j as int)
                },
            decreases line@.len() - j,
        {
            out.push(line[j]);
            proof {
                assert(line@.take(j + 1) =~= line@.take(j as int).push(line@[j as int]));
            }
            j = j + 1;
        }
        proof {
            let lv = views_of(ls@);
            assert(lv.take(i + 1) =~= lv.take(i as int).push(lv[i as int]));
            lemma_join_lines_push(lv.take(i as int), lv[i as int]);
            assert(line@.take(line@.len() as int) =~= line@);
        }
        i = i + 1;
    }
    proof {
        assert(views_of(ls@).take(ls@.len() as int) =~= views_of(ls@));
    }
    out
}

/// Does `v` begin with `p`?
fn vec_has_prefix(v: &Vec<char>, p: &Vec<char>) -> (r: bool)
    ensures
        r == is_prefix_of(p@, v@),
{
    if p.len() > v.len() {
        return false;
    }
    let mut i: usize = 0;
    while i < p.len()
        invariant
            i <= p@.len() <= v@.len(),
            forall|k: int| 0 <= k < i ==> v@[k] == p@[k],
        decreases p@.len() - i,
    {
        if v[i] != p[i] {
            proof {
                if is_prefix_of(p@, v@) {
                    assert(v@.take(p@.len() as int)[i as int] == p@[i as int]);
                }
            }
            return false;
        }
        i = i + 1;
    }
    proof {
        assert(v@.take(p@.len() as int) =~= p@);
    }
    true
}

/// Copy a character vector.
fn copy_chars(v: &Vec<char>) -> (r: Vec<char>)
    ensures
        r@ == v@,
{
    let mut out: Vec<char> = Vec::new();
    let mut i: usize = 0;
    while i < v.len()
        invariant
            i <= v@.len(),
            out@ == v@.take(i as int),
        decreases v@.len() - i,
    {
        out.push(v[i]);
        proof {
            assert(out@ =~= v@.take(i + 1));
        }
        i = i + 1;
    }
    proof {
        assert(v@.take(v@.len() as int) =~= v@);
    }
    out
}

/// The stored line for a formatted key and a raw value, both escaped.
fn build_line(fkey: &Vec<char>, value: &Vec<char>) -> (r: Vec<char>)
    ensures
        r@ == line_for(fkey@, value@),
{
    let mut out = escape_chars(fkey);
    out.push('=');
    out.push('"');
    let ev = escape_chars(value);
    let mut j: usize = 0;
    while j < ev.len()
        invariant
            j <= ev@.len(),
            ev@ == escape_seq(value@),
            out@ == escape_seq(fkey@) + seq!['=', '"'] + ev@.take(j as int),
        decreases ev@.len() - j,
    {
        out.push(ev[j]);
        proof {
            assert(ev@.take(j + 1) =~= ev@.take(j as int).push(ev@[j as int]));
            assert((escape_seq(fkey@) + seq!['=', '"'] + ev@.take(j as int)).push(ev@[j as int])
                =~= escape_seq(fkey@) + seq!['=', '"'] + ev@.take(j + 1));
        }
        j = j + 1;
    }
    proof {
        assert(ev@.take(ev@.len() as int) =~= ev@);
    }
    out.push('"');
    proof {
        assert(out@ =~= line_for(fkey@, value@));
    }
    out
}

/// Replace every line that begins with the escaped key, or append the
/// key's line when none does.
fn update_lines_vec(lines: Vec<Vec<char>>, fkey: &Vec<char>, value: &Vec<char>) -> (r: Vec<
    Vec<char>,
>)
    ensures
        views_of(r@) == update_lines(views_of(lines@), fkey@, value@),
{
    let ek = escape_chars(fkey);
    let nl = build_line(fkey, value);
    let mut out: Vec<Vec<char>> = Vec::new();
    let mut found = false;
    let mut i: usize = 0;
    let ghost lv = views_of(lines@);
    proof {
        assert(lv.take(0) =~= Seq::<Seq<char>>::empty());
        assert(views_of(out@) =~= replace_lines(lv.take(0), fkey@, nl@));
    }
    while i < lines.len()
        invariant
            i <= lines@.len(),
            lv == views_of(lines@),
            ek@ == escape_seq(fkey@),
            nl@ == line_for(fkey@, value@),
            found == any_line_matches(lv.take(i as int), fkey@),
            views_of(out@) == replace_lines(lv.take(i as int), fkey@, nl@),
        decreases lines@.len() - i,
    {
        let matches_here = vec_has_prefix(&lines[i], &ek);
        proof {
            assert(lv[i as int] == lines@[i as int]@);
            assert(lv.take(i + 1) =~= lv.take(i as int).push(lv[i as int]));
            lemma_any_matches_push(lv.take(i as int), fkey@, lv[i as int]);
            lemma_replace_lines_push(lv.take(i as int), fkey@, nl@, lv[i as int]);
        }
        if matches_here {
            let c = copy_chars(&nl);
            proof {
                assert(views_of(out@.push(c)) =~= views_of(out@).push(c@));
            }
            out.push(c);
            found = true;
        } else {
            let c = copy_chars(&lines[i]);
            proof {
                assert(views_of(out@.push(c)) =~= views_of(out@).push(c@));
            }
            out.push(c);
        }
        i = i + 1;
    }
    proof {
        assert(lv.take(lv.len() as int) =~= lv);
    }
    if !found {
        proof {
            assert(views_of(out@.push(nl)) =~= views_of(out@).push(nl@));
            assert(replace_lines(lv, fkey@, nl@).push(nl@) == views_of(out@).push(nl@));
        }
        let mut out2 = out;
        out2.push(nl);
        proof {
            assert(!any_line_matches(lv, fkey@));
            assert(update_lines(lv, fkey@, value@) == lv.push(line_for(fkey@, value@)));
            crate::kvline::lemma_replace_identity_when_no_match(lv, fkey@, nl@);
            assert(views_of(out2@) =~= lv.push(nl@));
        }
        out2
    } else {
        out
    }
}

/// The credential store. It holds the namespace prefix; the backing
/// content travels through the calls as a value.
#[derive(Debug, Clone)]
pub struct EnvStorage {
    prefix: Option<String>,
}

impl EnvStorage {
    pub closed spec fn prefix_view(&self) -> Option<Seq<char>> {
        match self.prefix {
            Some(p) => Some(p@),
            None => None,
        }
    }

    /// A store with an optional namespace prefix; the prefix may not
    /// contain an underscore, which is the namespace separator.
    pub fn new(prefix: Option<String>) -> (r: Self)
        requires
            prefix matches Some(p) ==> forall|i: int| 0 <= i < p@.len() ==> p@[i] != '_',
        ensures
            r.prefix_view() == match prefix {
                Some(p) => Some(p@),
                None => None::<Seq<char>>,
            },
    {
        Self { prefix }
    }

    /// The stored key for a logical field name.
    pub fn format_key(&self, key: &str) -> (r: String)
        ensures
            r@ == spec_format_key(self.prefix_view(), key@),
    {
        let kc = str_to_chars(key);
        let mut out: Vec<char> = Vec::new();
        let ghost base: Seq<char> = match self.prefix_view() {
            Some(p) => p + seq!['_'],
            None => Seq::empty(),
        };
        match &self.prefix {
            Some(p) => {
                let pc = str_to_chars(p.as_str());
                let mut i: usize = 0;
                while i < pc.len()
                    invariant
                        i <= pc@.len(),
                        pc@ == p@,
                        out@ == pc@.take(i as int),
                    decreases pc@.len() - i,
                {
                    out.push(pc[i]);
                    proof {
                        assert(out@ =~= pc@.take(i + 1));
                    }
                    i = i + 1;
                }
                proof {
                    assert(pc@.take(pc@.len() as int) =~= pc@);
                }
                out.push('_');
                proof {
                    assert(out@ =~= base);
                }
            },
            None => {
                proof {
                    assert(out@ =~= base);
                }
            },
        }
        let mut i: usize = 0;
        while i < kc.len()
            invariant
                i <= kc@.len(),
                kc@ == key@,
                out@ == base + upper_seq(kc@.take(i as int)),
            decreases kc@.len() - i,
        {
            let u = upper_char_exec(kc[i]);
            out.push(u);
            proof {
                assert(upper_seq(kc@.take(i + 1)) =~= upper_seq(kc@.take(i as int)).push(
                    upper_char(kc@[i as int]),
                ));
                assert((base + upper_seq(kc@.take(i as int))).push(upper_char(kc@[i as int])) =~= base
                    + upper_seq(kc@.take(i + 1)));
            }
            i = i + 1;
        }
        proof {
            assert(kc@.take(kc@.len() as int) =~= kc@);
            assert(base + upper_seq(key@) =~= spec_format_key(self.prefix_view(), key@));
        }
        chars_to_string(&out)
    }

    /// Escape a value for storage: a backslash is put before every quote
    /// and backslash.
    pub fn escape(value: &str) -> (r: String)
        ensures
            r@ == escape_seq(value@),
    {
        let vc = str_to_chars(value);
        let e = escape_chars(&vc);
        chars_to_string(&e)
    }

    /// The full stored line for a key and a value.
    pub fn get_formatted_line(&self, key: &str, value: &str) -> (r: String)
        ensures
            r@ == line_for(key@, value@),
    {
        let kc = str_to_chars(key);
        let vc = str_to_chars(value);
        let l = build_line(&kc, &vc);
        chars_to_string(&l)
    }

    /// Replace or append the key's line in the backing content, and give
    /// back the full new content.
    pub fn set_env(&self, contents: &str, key: &str, value: &str) -> (r: String)
        ensures
            r@ == join_lines(
                update_lines(
                    spec_lines(contents@),
                    spec_format_key(self.prefix_view(), key@),
                    value@,
                ),
            ),
    {
        let fk = self.format_key(key);
        let fkc = str_to_chars(fk.as_str());
        let vc = str_to_chars(value);
        let tv = str_to_chars(contents);
        let lines = split_lines(&tv);
        let updated = update_lines_vec(lines, &fkc, &vc);
        let joined = join_lines_vec(&updated);
        chars_to_string(&joined)
    }

    /// Look a key up in the backing content.
    pub fn get_env(&self, contents: &str, key: &str) -> (r: Result<String, Error>)
        ensures
            ({
                let fk = spec_format_key(self.prefix_view(), key@);
                match lookup_lines(spec_lines(contents@), fk) {
                    KeyLookup::Found(v) => r matches Ok(s) && s@ == v,
                    KeyLookup::Malformed => r matches Err(e) && e matches Error::FailedToParse {
                        key: k,
                        value: _,
                        error: _,
                    } && k@ == fk,
                    KeyLookup::Missing => r matches Err(e) && e matches Error::MissingEnv(k) && k@
                        == fk,
                }
            }),
    {
        let fk = self.format_key(key);
        let fkc = str_to_chars(fk.as_str());
        let mut ekeq = escape_chars(&fkc);
        let ghost ek = ekeq@;
        ekeq.push('=');
        proof {
            assert(ekeq@ =~= escape_seq(fkc@) + seq!['=']);
        }
        let tv = str_to_chars(contents);
        let lines = split_lines(&tv);
        let ghost lv = views_of(lines@);
        let mut i: usize = 0;
        proof {
            assert(lv.skip(0) =~= lv);
        }
        while i < lines.len()
            invariant
                i <= lines@.len(),
                lv == views_of(lines@),
                lv == spec_lines(contents@),
                fkc@ == spec_format_key(self.prefix_view(), key@),
                fk@ == fkc@,
                ekeq@ == escape_seq(fkc@) + seq!['='],
                lookup_lines(lv, fkc@) == lookup_lines(lv.skip(i as int), fkc@),
            decreases lines@.len() - i,
        {
            proof {
                assert(lv.skip(i as int)[0] == lv[i as int]);
                assert(lv[i as int] == lines@[i as int]@);
                assert(lv.skip(i as int).drop_first() =~= lv.skip(i + 1));
            }
            if vec_has_prefix(&lines[i], &ekeq) {
                // this line binds the key: parse its value part
                let mut p2 = copy_chars(&ekeq);
                p2.push('"');
                proof {
                    assert(p2@ =~= escape_seq(fkc@) + seq!['=', '"']);
                }
                if vec_has_prefix(&lines[i], &p2) {
                    match scan_quoted_from(&lines[i], p2.len()) {
                        Some((v, j)) => {
                            if j == lines[i].len() {
                                proof {
                                    assert(lines@[i as int]@.skip(j as int).len() == 0);
                                    assert(line_value(lv[i as int], fkc@) == Some(v@));
                                }
                                return Ok(chars_to_string(&v));
                            } else {
                                proof {
                                    assert(lines@[i as int]@.skip(j as int).len() > 0);
                                    assert(line_value(lv[i as int], fkc@) is None);
                                }
                                return Err(
                                    Error::FailedToParse {
                                        key: fk,
                                        value: chars_to_string(&lines[i]),
                                        error: None,
                                    },
                                );
                            }
                        },
                        None => {
                            proof {
                                assert(line_value(lv[i as int], fkc@) is None);
                            }
                            return Err(
                                Error::FailedToParse {
                                    key: fk,
                                    value: chars_to_string(&lines[i]),
                                    error: None,
                                },
                            );
                        },
                    }
                } else {
                    proof {
                        assert(line_value(lv[i as int], fkc@) is None);
                    }
                    return Err(
                        Error::FailedToParse {
                            key: fk,
                            value: chars_to_string(&lines[i]),
                            error: None,
                        },
                    );
                }
            }
            i = i + 1;
        }
        proof {
            assert(lv.skip(lv.len() as int).len() == 0);
        }
        Err(Error::MissingEnv(fk))
    }

    /// Look a key up; a missing key is no error here.
    pub fn get_env_opt(&self, contents: &str, key: &str) -> (r: Result<Option<String>, Error>)
        ensures
            ({
                let fk = spec_format_key(self.prefix_view(), key@);
                match lookup_lines(spec_lines(contents@), fk) {
                    KeyLookup::Found(v) => r matches Ok(Some(s)) && s@ == v,
                    KeyLookup::Malformed => r matches Err(e) && e matches Error::FailedToParse {
                        key: k,
                        value: _,
                        error: _,
                    } && k@ == fk,
                    KeyLookup::Missing => r matches Ok(s) && s is None,
                }
            }),
    {
        match self.get_env(contents, key) {
            Ok(v) => Ok(Some(v)),
            Err(e) => match e {
                Error::MissingEnv(_) => Ok(None),
                other => Err(other),
            },
        }
    }

    /// Look a key up and read it as a decimal number.
    pub fn get_env_u64(&self, contents: &str, key: &str) -> (r: Result<u64, Error>)
        ensures
            ({
                let fk = spec_format_key(self.prefix_view(), key@);
                match lookup_lines(spec_lines(contents@), fk) {
                    KeyLookup::Found(v) => match parse_u64_all(v) {
                        Some(n) => r matches Ok(m) && m as nat == n,
                        None => r matches Err(e) && e matches Error::FailedToParse {
                            key: k,
                            value: _,
                            error: _,
                        } && k@ == fk,
                    },
                    KeyLookup::Malformed => r matches Err(e) && e matches Error::FailedToParse {
                        key: k,
                        value: _,
                        error: _,
                    } && k@ == fk,
                    KeyLookup::Missing => r matches Err(e) && e matches Error::MissingEnv(k) && k@
                        == fk,
                }
            }),
    {
        let s = self.get_env(contents, key)?;
        let sc = str_to_chars(s.as_str());
        match parse_u64_chars(&sc) {
            Some(n) => Ok(n),
            None => Err(
                Error::FailedToParse { key: self.format_key(key), value: s, error: None },
            ),
        }
    }
}

/// A credential record: rewritten in full on every refresh, read once at
/// startup.
pub struct UserToken {
    pub access_token: String,
    pub refresh_token: String,
    /// Seconds since the Unix epoch, UTC.
    pub created_at: u64,
    /// Seconds since the Unix epoch, UTC.
    pub expires_at: u64,
}

#[verifier::ext_equal]
pub struct UserTokenView {
    pub access_token: Seq<char>,
    pub refresh_token: Seq<char>,
    pub created_at: u64,
    pub expires_at: u64,
}

impl View for UserToken {
    type V = UserTokenView;

    open spec fn view(&self) -> UserTokenView {
        UserTokenView {
            access_token: self.access_token@,
            refresh_token: self.refresh_token@,
            created_at: self.created_at,
            expires_at: self.expires_at,
        }
    }
}

pub open spec fn access_key(prefix: Option<Seq<char>>) -> Seq<char> {
    spec_format_key(prefix, "ACCESS_TOKEN"@)
}

pub open spec fn refresh_key(prefix: Option<Seq<char>>) -> Seq<char> {
    spec_format_key(prefix, "REFRESH_TOKEN"@)
}

pub open spec fn created_key(prefix: Option<Seq<char>>) -> Seq<char> {
    spec_format_key(prefix, "TOKEN_CREATED_AT"@)
}

pub open spec fn expires_key(prefix: Option<Seq<char>>) -> Seq<char> {
    spec_format_key(prefix, "TOKEN_EXPIRES_AT"@)
}

/// What loading a record from given content yields.
pub enum TokenLoad {
    Loaded(UserTokenView),
    /// A required field is missing; carries its stored key.
    MissingField(Seq<char>),
    /// A required field is present but not well formed; carries its key.
    BadField(Seq<char>),
}

/// An optional timestamp field: absent or unreadable means the zero time.
pub open spec fn timestamp_or_zero(l: KeyLookup) -> u64 {
    match l {
        KeyLookup::Found(v) => match parse_u64_all(v) {
            Some(n) => n as u64,
            None => 0,
        },
        _ => 0,
    }
}

/// The record that given backing content holds.
pub open spec fn spec_load_token(prefix: Option<Seq<char>>, c: Seq<char>) -> TokenLoad {
    let ls = spec_lines(c);
    match lookup_lines(ls, access_key(prefix)) {
        KeyLookup::Missing => TokenLoad::MissingField(access_key(prefix)),
        KeyLookup::Malformed => TokenLoad::BadField(access_key(prefix)),
        KeyLookup::Found(av) => match lookup_lines(ls, refresh_key(prefix)) {
            KeyLookup::Missing => TokenLoad::MissingField(refresh_key(prefix)),
            KeyLookup::Malformed => TokenLoad::BadField(refresh_key(prefix)),
            KeyLookup::Found(rv) => TokenLoad::Loaded(
                UserTokenView {
                    access_token: av,
                    refresh_token: rv,
                    created_at: timestamp_or_zero(lookup_lines(ls, created_key(prefix))),
                    expires_at: timestamp_or_zero(lookup_lines(ls, expires_key(prefix))),
                },
            ),
        },
    }
}

/// The full new backing content that saving a record produces: all four
/// key-value lines replaced or appended, everything else kept.
pub open spec fn spec_update_token(
    prefix: Option<Seq<char>>,
    c: Seq<char>,
    t: UserTokenView,
) -> Seq<char> {
    let ls0 = spec_lines(c);
    let ls1 = update_lines(ls0, access_key(prefix), t.access_token);
    let ls2 = update_lines(ls1, refresh_key(prefix), t.refresh_token);
    let ls3 = update_lines(ls2, created_key(prefix), dec_seq(t.created_at as nat));
    let ls4 = update_lines(ls3, expires_key(prefix), dec_seq(t.expires_at as nat));
    join_lines(ls4)
}

impl EnvStorage {
    /// A timestamp field: the zero time when missing or unreadable.
    fn read_timestamp(&self, contents: &str, key: &str) -> (r: u64)
        ensures
            r == timestamp_or_zero(
                lookup_lines(spec_lines(contents@), spec_format_key(self.prefix_view(), key@)),
            ),
    {
        match self.get_env(contents, key) {
            Ok(s) => {
                let sc = str_to_chars(s.as_str());
                match parse_u64_chars(&sc) {
                    Some(n) => n,
                    None => 0,
                }
            },
            Err(_) => 0,
        }
    }

    /// Read the credential record out of the backing content. The two
    /// token fields are required; the two timestamps default to zero.
    pub fn load_token(&self, contents: &str) -> (r: Result<UserToken, Error>)
        ensures
            match spec_load_token(self.prefix_view(), contents@) {
                TokenLoad::Loaded(tv) => r matches Ok(t) && t@ == tv,
                TokenLoad::MissingField(k) => r matches Err(e) && e matches Error::MissingEnv(s)
                    && s@ == k,
                TokenLoad::BadField(k) => r matches Err(e) && e matches Error::FailedToParse {
                    key: s,
                    value: _,
                    error: _,
                } && s@ == k,
            },
    {
        let access_token = match self.get_env(contents, "ACCESS_TOKEN") {
            Ok(v) => v,
            Err(e) => {
                return Err(e);
            },
        };
        let refresh_token = match self.get_env(contents, "REFRESH_TOKEN") {
            Ok(v) => v,
            Err(e) => {
                return Err(e);
            },
        };
        let created_at = self.read_timestamp(contents, "TOKEN_CREATED_AT");
        let expires_at = self.read_timestamp(contents, "TOKEN_EXPIRES_AT");
        Ok(UserToken { access_token, refresh_token, created_at, expires_at })
    }

    /// Write the credential record into the backing content and give back
    /// the full new content, to be put in place atomically by the caller.
    pub fn update_token(&self, contents: &str, token: &UserToken) -> (r: String)
        ensures
            r@ == spec_update_token(self.prefix_view(), contents@, token@),
    {
        let tv = str_to_chars(contents);
        let lines = split_lines(&tv);
        let ak = self.format_key("ACCESS_TOKEN");
        let akc = str_to_chars(ak.as_str());
        let av = str_to_chars(token.access_token.as_str());
        let lines = update_lines_vec(lines, &akc, &av);
        let rk = self.format_key("REFRESH_TOKEN");
        let rkc = str_to_chars(rk.as_str());
        let rv = str_to_chars(token.refresh_token.as_str());
        let lines = update_lines_vec(lines, &rkc, &rv);
        let ck = self.format_key("TOKEN_CREATED_AT");
        let ckc = str_to_chars(ck.as_str());
        let cv = u64_to_dec_chars(token.created_at);
        let lines = update_lines_vec(lines, &ckc, &cv);
        let ek = self.format_key("TOKEN_EXPIRES_AT");
        let ekc = str_to_chars(ek.as_str());
        let ev = u64_to_dec_chars(token.expires_at);
        let lines = update_lines_vec(lines, &ekc, &ev);
        let joined = join_lines_vec(&lines);
        chars_to_string(&joined)
    }
}

} // verus!
