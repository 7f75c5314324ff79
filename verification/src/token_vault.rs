//! The token vault: tokens found in the chat client's database, kept
//! scrambled in memory under keys `token_<n>`, and stored encrypted on disk.
//! Reading and writing the files is left to the caller.

use vstd::prelude::*;
use std::collections::HashMap;
use crate::config::{ConfigView, ShieldConfig};
use crate::crypto::{
    deobfuscated, obfuscate_token, obfuscated, sealed_with, CryptoError, TokenCrypto,
    MAX_PLAINTEXT_LEN, NONCE_SIZE,
};
use crate::text::{chars_of, decimal, lemma_decimal_injective, push_decimal, push_str_chars, string_from_chars};
use crate::utils::{find_tokens_in_text, found_by, token_pattern};

verus! {

broadcast use vstd::string::group_string_axioms;

// ---------------------------------------------------------------------------
// Ordering of texts
// ---------------------------------------------------------------------------

/// `a` comes before `b` in the order of `String`'s `Ord`: the first differing
/// character decides by code point, and a proper prefix comes first.
pub open spec fn lex_lt(a: Seq<char>, b: Seq<char>) -> bool
    decreases a.len(),
{
    if b.len() == 0 {
        false
    } else if a.len() == 0 {
        true
    } else if a[0] == b[0] {
        lex_lt(a.drop_first(), b.drop_first())
    } else {
        (a[0] as u32) < (b[0] as u32)
    }
}

/// The texts of character vectors.
pub open spec fn char_views(v: Seq<Vec<char>>) -> Seq<Seq<char>> {
    v.map_values(|x: Vec<char>| x@)
}

/// Each text comes strictly before the next.
pub open spec fn strictly_sorted(s: Seq<Seq<char>>) -> bool {
    forall|i: int, j: int| 0 <= i < j < s.len() ==> lex_lt(#[trigger] s[i], #[trigger] s[j])
}

/// No text comes before itself.
pub proof fn lemma_lex_irreflexive(a: Seq<char>)
    ensures
        !lex_lt(a, a),
    decreases a.len(),
{
    if a.len() > 0 {
        lemma_lex_irreflexive(a.drop_first());
    }
}

/// The order is transitive.
pub proof fn lemma_lex_transitive(a: Seq<char>, b: Seq<char>, c: Seq<char>)
    requires
        lex_lt(a, b),
        lex_lt(b, c),
    ensures
        lex_lt(a, c),
    decreases a.len(),
{
    if a.len() > 0 && b.len() > 0 && c.len() > 0 {
        if a[0] == b[0] && b[0] == c[0] {
            lemma_lex_transitive(a.drop_first(), b.drop_first(), c.drop_first());
        }
    }
}

/// Of two different texts, one comes before the other.
pub proof fn lemma_lex_total(a: Seq<char>, b: Seq<char>)
    requires
        a != b,
    ensures
        lex_lt(a, b) || lex_lt(b, a),
    decreases a.len(),
{
    if a.len() > 0 && b.len() > 0 {
        if a[0] == b[0] {
            if a.drop_first() == b.drop_first() {
                assert(a =~= seq![a[0]] + a.drop_first());
                assert(b =~= seq![b[0]] + b.drop_first());
            }
            lemma_lex_total(a.drop_first(), b.drop_first());
        } else {
            let x = a[0] as u32;
            let y = b[0] as u32;
            vstd::utf8::char_u32_cast(a[0], x);
            vstd::utf8::char_u32_cast(b[0], y);
        }
    } else if a.len() == 0 && b.len() == 0 {
        assert(a =~= b);
    }
}

/// Whether `a` comes before `b`.
pub fn lex_less(a: &Vec<char>, b: &Vec<char>) -> (r: bool)
    ensures
        r == lex_lt(a@, b@),
{
    assert(a@.skip(0) =~= a@);
    assert(b@.skip(0) =~= b@);
    let mut i: usize = 0;
    loop
        invariant
            i <= a.len(),
            i <= b.len(),
            lex_lt(a@, b@) == lex_lt(a@.skip(i as int), b@.skip(i as int)),
        decreases a.len() - i,
    {
        if i == b.len() {
            return false;
        }
        if i == a.len() {
            return true;
        }
        assert(a@.skip(i as int)[0] == a@[i as int]);
        assert(b@.skip(i as int)[0] == b@[i as int]);
        if a[i] != b[i] {
            return (a[i] as u32) < (b[i] as u32);
        }
        assert(a@.skip(i as int).drop_first() =~= a@.skip(i + 1));
        assert(b@.skip(i as int).drop_first() =~= b@.skip(i + 1));
        i = i + 1;
    }
}

// ---------------------------------------------------------------------------
// Tokens found in a directory
// ---------------------------------------------------------------------------

/// The tokens found in each text, one text after another.
pub open spec fn tokens_in_texts(texts: Seq<Seq<char>>) -> Seq<Seq<char>>
    decreases texts.len(),
{
    if texts.len() == 0 {
        Seq::empty()
    } else {
        tokens_in_texts(texts.drop_last()) + found_by(token_pattern(), texts.last())
    }
}

/// The tokens found in some text of `texts`.
pub open spec fn found_in_some(texts: Seq<Seq<char>>, t: Seq<char>) -> bool {
    exists|i: int| 0 <= i < texts.len() && #[trigger] found_by(token_pattern(), texts[i]).contains(t)
}

/// Every file of a directory is searched: a token is among those of the
/// texts exactly when the search finds it in one of them, whichever.
pub proof fn lemma_tokens_of_every_text(texts: Seq<Seq<char>>)
    ensures
        forall|t: Seq<char>| #[trigger] tokens_in_texts(texts).contains(t) <==> found_in_some(texts, t),
    decreases texts.len(),
{
    if texts.len() > 0 {
        let init = texts.drop_last();
        lemma_tokens_of_every_text(init);
        let a = tokens_in_texts(init);
        let f = found_by(token_pattern(), texts.last());
        assert forall|t: Seq<char>| #[trigger] tokens_in_texts(texts).contains(t) <==> found_in_some(
            texts,
            t,
        ) by {
            let all = a + f;
            assert(tokens_in_texts(texts) == all);
            if all.contains(t) {
                let m = choose|m: int| 0 <= m < all.len() && all[m] == t;
                if m < a.len() {
                    assert(a[m] == t);
                    assert(a.contains(t));
                    let i = choose|i: int|
                        0 <= i < init.len() && #[trigger] found_by(token_pattern(), init[i]).contains(t);
                    assert(texts[i] == init[i]);
                } else {
                    assert(f[m - a.len()] == t);
                    assert(f.contains(t));
                    assert(found_by(token_pattern(), texts[texts.len() - 1]).contains(t));
                }
            }
            if found_in_some(texts, t) {
                let i = choose|i: int|
                    0 <= i < texts.len() && #[trigger] found_by(token_pattern(), texts[i]).contains(t);
                if i < texts.len() - 1 {
                    assert(init[i] == texts[i]);
                    assert(found_in_some(init, t));
                    assert(tokens_in_texts(init).contains(t));
                    let m = choose|m: int| 0 <= m < a.len() && a[m] == t;
                    assert(all[m] == t);
                } else {
                    let m = choose|m: int| 0 <= m < f.len() && f[m] == t;
                    assert(all[a.len() + m] == t);
                }
            }
        }
    }
}

/// The texts of a list of strings.
pub open spec fn string_texts(v: Seq<String>) -> Seq<Seq<char>> {
    v.map_values(|s: String| s@)
}

/// `out` holds each text of `all` once, in order.
pub open spec fn sorted_set_of(out: Seq<Seq<char>>, all: Seq<Seq<char>>) -> bool {
    &&& strictly_sorted(out)
    &&& forall|t: Seq<char>| #[trigger] out.contains(t) <==> all.contains(t)
}

/// Whether a file, by its extension, is one of the database's table or log
/// files that tokens are read from.
pub fn is_token_store_extension(ext: &str) -> (r: bool)
    ensures
        r == (ext@ == "ldb"@ || ext@ == "log"@),
{
    let e = chars_of(ext);
    let ldb = chars_of("ldb");
    let log = chars_of("log");
    same_chars(&e, &ldb) || same_chars(&e, &log)
}

/// Whether two character vectors hold the same characters.
fn same_chars(a: &Vec<char>, b: &Vec<char>) -> (r: bool)
    ensures
        r == (a@ == b@),
{
    if a.len() != b.len() {
        return false;
    }
    let mut i: usize = 0;
    while i < a.len()
        invariant
            a.len() == b.len(),
            i <= a.len(),
            forall|k: int| 0 <= k < i ==> a@[k] == b@[k],
        decreases a.len() - i,
    {
        if a[i] != b[i] {
            return false;
        }
        i = i + 1;
    }
    assert(a@ =~= b@);
    true
}

/// Puts `t` into the sorted list unless it is there already.
fn insert_sorted(sorted: &mut Vec<Vec<char>>, out: &mut Vec<String>, t: &String)
    requires
        strictly_sorted(char_views(old(sorted)@)),
        old(out)@.len() == old(sorted)@.len(),
        forall|k: int| 0 <= k < old(out)@.len() ==> #[trigger] old(out)@[k]@ == old(sorted)@[k]@,
    ensures
        strictly_sorted(char_views(final(sorted)@)),
        final(out)@.len() == final(sorted)@.len(),
        forall|k: int| 0 <= k < final(out)@.len() ==> #[trigger] final(out)@[k]@ == final(sorted)@[k]@,
        forall|x: Seq<char>|
            #[trigger] char_views(final(sorted)@).contains(x) <==> (char_views(old(sorted)@).contains(x) || x == t@),
{
    let ghost s0 = char_views(old(sorted)@);
    let tc = chars_of(t.as_str());
    let mut j: usize = 0;
    while j < sorted.len() && lex_less(&sorted[j], &tc)
        invariant
            j <= sorted.len(),
            sorted@ == old(sorted)@,
            out@ == old(out)@,
            tc@ == t@,
            s0 == char_views(old(sorted)@),
            forall|k: int| 0 <= k < j ==> lex_lt(#[trigger] s0[k], t@),
        decreases sorted.len() - j,
    {
        j = j + 1;
    }
    if j < sorted.len() && same_chars(&sorted[j], &tc) {
        assert(s0[j as int] == t@);
        return;
    }
    proof {
        if j < s0.len() {
            assert(!lex_lt(s0[j as int], t@));
            lemma_lex_total(s0[j as int], t@);
            assert forall|k: int| j <= k < s0.len() implies lex_lt(t@, #[trigger] s0[k]) by {
                if k > j {
                    lemma_lex_transitive(t@, s0[j as int], s0[k]);
                }
            }
        }
    }
    sorted.insert(j, tc);
    out.insert(j, t.clone());
    let ghost s1 = char_views(sorted@);
    assert(s1 =~= s0.insert(j as int, t@));
    assert forall|a: int, b: int| 0 <= a < b < s1.len() implies lex_lt(
        #[trigger] s1[a],
        #[trigger] s1[b],
    ) by {
        if b < j {
        } else if a < j && b == j {
        } else if a < j && b > j {
            assert(s1[b] == s0[b - 1]);
        } else if a == j {
            assert(s1[b] == s0[b - 1]);
        } else {
            assert(s1[a] == s0[a - 1] && s1[b] == s0[b - 1]);
        }
    }
    assert forall|x: Seq<char>| #[trigger] s1.contains(x) <==> (s0.contains(x) || x == t@) by {
        if s0.contains(x) {
            let k = choose|k: int| 0 <= k < s0.len() && s0[k] == x;
            if k < j {
                assert(s1[k] == x);
            } else {
                assert(s1[k + 1] == x);
            }
        }
        if x == t@ {
            assert(s1[j as int] == x);
        }
        if s1.contains(x) {
            let k = choose|k: int| 0 <= k < s1.len() && s1[k] == x;
            if k < j {
                assert(s0[k] == x);
            } else if k > j {
                assert(s0[k - 1] == x);
            }
        }
    }
}

/// The tokens in the texts of one database directory's files, sorted and
/// each once.
pub fn extract_tokens(texts: &Vec<String>) -> (tokens: Vec<String>)
    ensures
        sorted_set_of(string_texts(tokens@), tokens_in_texts(string_texts(texts@))),
        forall|t: Seq<char>|
            #[trigger] string_texts(tokens@).contains(t) <==> found_in_some(string_texts(texts@), t),
{
    let mut sorted: Vec<Vec<char>> = Vec::new();
    let mut out: Vec<String> = Vec::new();
    let ghost mut all: Seq<Seq<char>> = Seq::empty();
    let mut i: usize = 0;
    while i < texts.len()
        invariant
            i <= texts.len(),
            all == tokens_in_texts(string_texts(texts@.take(i as int))),
            strictly_sorted(char_views(sorted@)),
            out@.len() == sorted@.len(),
            forall|k: int| 0 <= k < out@.len() ==> #[trigger] out@[k]@ == sorted@[k]@,
            forall|x: Seq<char>| #[trigger] char_views(sorted@).contains(x) <==> all.contains(x),
        decreases texts.len() - i,
    {
        let found = find_tokens_in_text(texts[i].as_str());
        let ghost f = string_texts(found@);
        assert(string_texts(texts@.take(i + 1)).drop_last() =~= string_texts(texts@.take(i as int)));
        let ghost all2 = all + f;
        let mut k: usize = 0;
        while k < found.len()
            invariant
                k <= found.len(),
                f == string_texts(found@),
                strictly_sorted(char_views(sorted@)),
                out@.len() == sorted@.len(),
                forall|m: int| 0 <= m < out@.len() ==> #[trigger] out@[m]@ == sorted@[m]@,
                forall|x: Seq<char>|
                    #[trigger] char_views(sorted@).contains(x) <==> (all + f.take(
                        k as int,
                    )).contains(x),
            decreases found.len() - k,
        {
            insert_sorted(&mut sorted, &mut out, &found[k]);
            proof {
                let prev = all + f.take(k as int);
                let next = all + f.take(k + 1);
                assert(next =~= prev.push(f[k as int]));
                assert forall|x: Seq<char>| #[trigger] next.contains(x) <==> (prev.contains(x) || x == f[k as int]) by {
                    if next.contains(x) {
                        let m = choose|m: int| 0 <= m < next.len() && next[m] == x;
                        if m < prev.len() {
                            assert(prev[m] == x);
                        }
                    }
                    if prev.contains(x) {
                        let m = choose|m: int| 0 <= m < prev.len() && prev[m] == x;
                        assert(next[m] == x);
                    }
                    if x == f[k as int] {
                        assert(next[prev.len() as int] == x);
                    }
                }
            }
            k = k + 1;
        }
        assert(f.take(f.len() as int) =~= f);
        proof {
            all = all2;
        }
        i = i + 1;
    }
    assert(texts@.take(texts@.len() as int) =~= texts@);
    assert(string_texts(out@) =~= char_views(sorted@));
    proof {
        lemma_tokens_of_every_text(string_texts(texts@));
    }
    out
}

// ---------------------------------------------------------------------------
// The in-memory store
// ---------------------------------------------------------------------------

/// Entries as values.
pub open spec fn entries_view(v: Seq<(String, Vec<u8>)>) -> Seq<(Seq<char>, Seq<u8>)> {
    v.map_values(|e: (String, Vec<u8>)| (e.0@, e.1@))
}

/// The map that entries make when they are put in one after another (a later
/// entry for the same key replaces an earlier one).
pub open spec fn entries_map(e: Seq<(Seq<char>, Seq<u8>)>) -> Map<Seq<char>, Seq<u8>>
    decreases e.len(),
{
    if e.len() == 0 {
        Map::empty()
    } else {
        entries_map(e.drop_last()).insert(e.last().0, e.last().1)
    }
}

/// No key occurs twice among the entries.
pub open spec fn keys_distinct(e: Seq<(Seq<char>, Seq<u8>)>) -> bool {
    forall|i: int, j: int| 0 <= i < j < e.len() ==> (#[trigger] e[i]).0 != (#[trigger] e[j]).0
}

/// A key is in the map exactly when some entry has it.
pub proof fn lemma_entries_map_dom(e: Seq<(Seq<char>, Seq<u8>)>, k: Seq<char>)
    ensures
        entries_map(e).dom().contains(k) <==> exists|i: int| 0 <= i < e.len() && (#[trigger] e[i]).0 == k,
    decreases e.len(),
{
    if e.len() > 0 {
        lemma_entries_map_dom(e.drop_last(), k);
        if entries_map(e).dom().contains(k) && k != e.last().0 {
            let i = choose|i: int| 0 <= i < e.drop_last().len() && (#[trigger] e.drop_last()[i]).0 == k;
            assert(e[i] == e.drop_last()[i]);
        }
        if exists|i: int| 0 <= i < e.len() && (#[trigger] e[i]).0 == k {
            let i = choose|i: int| 0 <= i < e.len() && (#[trigger] e[i]).0 == k;
            if i < e.len() - 1 {
                assert(e.drop_last()[i] == e[i]);
            }
        }
    }
}

/// With distinct keys, the map gives each entry's value for its key.
pub proof fn lemma_entries_map_lookup(e: Seq<(Seq<char>, Seq<u8>)>, i: int)
    requires
        keys_distinct(e),
        0 <= i < e.len(),
    ensures
        entries_map(e).dom().contains(e[i].0),
        entries_map(e)[e[i].0] == e[i].1,
    decreases e.len(),
{
    if i < e.len() - 1 {
        assert(keys_distinct(e.drop_last()));
        assert(e.drop_last()[i] == e[i]);
        lemma_entries_map_lookup(e.drop_last(), i);
        assert(e[i].0 != e[e.len() - 1].0);
    }
}

/// With distinct keys, replacing an entry's value replaces it in the map.
pub proof fn lemma_entries_map_update(e: Seq<(Seq<char>, Seq<u8>)>, i: int, v: Seq<u8>)
    requires
        keys_distinct(e),
        0 <= i < e.len(),
    ensures
        entries_map(e.update(i, (e[i].0, v))) == entries_map(e).insert(e[i].0, v),
    decreases e.len(),
{
    let e2 = e.update(i, (e[i].0, v));
    if i == e.len() - 1 {
        assert(e2.drop_last() =~= e.drop_last());
        assert(entries_map(e2) =~= entries_map(e).insert(e[i].0, v));
    } else {
        assert(keys_distinct(e.drop_last()));
        assert(e2.drop_last() =~= e.drop_last().update(i, (e[i].0, v)));
        assert(e.drop_last()[i] == e[i]);
        lemma_entries_map_update(e.drop_last(), i, v);
        assert(e[i].0 != e[e.len() - 1].0);
        assert(entries_map(e2) =~= entries_map(e).insert(e[i].0, v));
    }
}

/// With distinct keys, the map has as many keys as there are entries.
pub proof fn lemma_entries_map_len(e: Seq<(Seq<char>, Seq<u8>)>)
    requires
        keys_distinct(e),
    ensures
        entries_map(e).dom().finite(),
        entries_map(e).dom().len() == e.len(),
    decreases e.len(),
{
    if e.len() > 0 {
        let p = e.drop_last();
        let k = e.last().0;
        assert(keys_distinct(p));
        lemma_entries_map_len(p);
        lemma_entries_map_dom(p, k);
        if entries_map(p).dom().contains(k) {
            let i = choose|i: int| 0 <= i < p.len() && (#[trigger] p[i]).0 == k;
            assert(e[i] == p[i]);
            assert(e[i].0 != e[e.len() - 1].0);
        }
        assert(entries_map(e).dom() =~= entries_map(p).dom().insert(k));
    }
}

/// Tokens kept in memory, scrambled, under their keys.
pub struct TokenStore {
    entries: Vec<(String, Vec<u8>)>,
}

impl View for TokenStore {
    type V = Map<Seq<char>, Seq<u8>>;

    closed spec fn view(&self) -> Map<Seq<char>, Seq<u8>> {
        entries_map(entries_view(self.entries@))
    }
}

impl TokenStore {
    /// No key is held twice.
    pub closed spec fn wf(&self) -> bool {
        keys_distinct(entries_view(self.entries@))
    }

    /// The entries in the order in which they are kept.
    pub closed spec fn entry_seq(&self) -> Seq<(Seq<char>, Seq<u8>)> {
        entries_view(self.entries@)
    }

    /// An empty store.
    pub fn new() -> (s: TokenStore)
        ensures
            s.wf(),
            s@ == Map::<Seq<char>, Seq<u8>>::empty(),
    {
        let s = TokenStore { entries: Vec::new() };
        assert(entries_view(s.entries@) =~= Seq::empty());
        s
    }

    /// The store holding the given entries, whose keys are distinct.
    fn from_entries(entries: Vec<(String, Vec<u8>)>) -> (s: TokenStore)
        requires
            keys_distinct(entries_view(entries@)),
        ensures
            s.wf(),
            s@ == entries_map(entries_view(entries@)),
    {
        TokenStore { entries }
    }

    /// The position of `key` among the entries.
    fn find(&self, key: &str) -> (r: Option<usize>)
        requires
            self.wf(),
        ensures
            r matches Some(i) ==> i < self.entries@.len() && self.entry_seq()[i as int].0 == key@,
            r is None ==> forall|i: int| 0 <= i < self.entries@.len() ==> (#[trigger] self.entry_seq()[i]).0 != key@,
    {
        let k = chars_of(key);
        let mut i: usize = 0;
        while i < self.entries.len()
            invariant
                i <= self.entries@.len(),
                k@ == key@,
                forall|j: int| 0 <= j < i ==> (#[trigger] self.entry_seq()[j]).0 != key@,
            decreases self.entries.len() - i,
        {
            let c = chars_of(self.entries[i].0.as_str());
            if same_chars(&c, &k) {
                return Some(i);
            }
            i = i + 1;
        }
        None
    }

    /// The scrambled token kept under `key`.
    pub fn get(&self, key: &str) -> (r: Option<&Vec<u8>>)
        requires
            self.wf(),
        ensures
            r matches Some(v) ==> self@.dom().contains(key@) && self@[key@] == v@,
            r is None ==> !self@.dom().contains(key@),
    {
        proof {
            lemma_entries_map_dom(self.entry_seq(), key@);
        }
        match self.find(key) {
            Some(i) => {
                proof {
                    lemma_entries_map_lookup(self.entry_seq(), i as int);
                }
                Some(&self.entries[i].1)
            },
            None => None,
        }
    }

    /// The number of tokens kept.
    pub fn len(&self) -> (n: usize)
        requires
            self.wf(),
        ensures
            n == self@.dom().len(),
    {
        proof {
            lemma_entries_map_len(self.entry_seq());
        }
        self.entries.len()
    }

    /// Keeps `value` under `key`, replacing what was kept there.
    pub fn insert(&mut self, key: String, value: Vec<u8>)
        requires
            old(self).wf(),
        ensures
            final(self).wf(),
            final(self)@ == old(self)@.insert(key@, value@),
    {
        match self.find(key.as_str()) {
            Some(i) => {
                let ghost e = self.entry_seq();
                proof {
                    lemma_entries_map_update(e, i as int, value@);
                }
                self.entries.set(i, (key, value));
                assert(self.entry_seq() =~= e.update(i as int, (e[i as int].0, value@)));
                assert forall|a: int, b: int| 0 <= a < b < self.entry_seq().len() implies (
                #[trigger] self.entry_seq()[a]).0 != (#[trigger] self.entry_seq()[b]).0 by {
                    assert(self.entry_seq()[a].0 == e[a].0);
                    assert(self.entry_seq()[b].0 == e[b].0);
                }
            },
            None => {
                let ghost e = self.entry_seq();
                self.entries.push((key, value));
                assert(self.entry_seq().drop_last() =~= e);
                assert forall|a: int, b: int| 0 <= a < b < self.entry_seq().len() implies (
                #[trigger] self.entry_seq()[a]).0 != (#[trigger] self.entry_seq()[b]).0 by {
                    assert(self.entry_seq()[a] == e[a]);
                    if b < e.len() {
                        assert(self.entry_seq()[b] == e[b]);
                    }
                }
            },
        }
    }
}

// ---------------------------------------------------------------------------
// The stored form
// ---------------------------------------------------------------------------

/// The error of `serde_json`.
#[verifier::external_type_specification]
#[verifier::external_body]
pub struct ExJsonError(serde_json::Error);

/// The name of what `serde_json::from_slice` gives when it reads bytes as a
/// JSON object from strings to byte arrays (`HashMap<String, Vec<u8>>`):
/// `None` where the bytes are not such an object.
pub uninterp spec fn vault_from_json(bytes: Seq<u8>) -> Option<Map<Seq<char>, Seq<u8>>>;

/// Writes the entries as a JSON object with `serde_json::to_vec` (through a
/// `HashMap`, so a later entry for a key replaces an earlier one). Its
/// documentation says serialization fails only for a failing `Serialize`
/// impl or non-string keys, neither of which occurs here; the bytes it
/// writes are not named (their order follows the map's hashing), but
/// `from_slice` reads them back into the same map.
#[verifier::external_body]
fn vault_to_json(entries: &Vec<(String, Vec<u8>)>) -> (res: Result<Vec<u8>, serde_json::Error>)
    ensures
        res is Ok,
        res matches Ok(b) ==> vault_from_json(b@) == Some(entries_map(entries_view(entries@))),
{
    let map: HashMap<&String, &Vec<u8>> = entries.iter().map(|e| (&e.0, &e.1)).collect();
    serde_json::to_vec(&map)
}

/// Reads bytes as a JSON object from strings to byte arrays with
/// `serde_json::from_slice` into a `HashMap<String, Vec<u8>>`, and lists its
/// entries (in the map's order, whose keys are distinct).
#[verifier::external_body]
fn vault_from_json_bytes(bytes: &[u8]) -> (res: Result<Vec<(String, Vec<u8>)>, serde_json::Error>)
    ensures
        res is Ok <==> vault_from_json(bytes@) is Some,
        res matches Ok(v) ==> vault_from_json(bytes@) == Some(entries_map(entries_view(v@)))
            && keys_distinct(entries_view(v@)),
{
    serde_json::from_slice::<HashMap<String, Vec<u8>>>(bytes).map(|m| m.into_iter().collect())
}

/// `data` is a vault file that holds `tokens` under `key`: the encryption,
/// under some nonce, of a JSON text that reads back as `tokens`.
pub open spec fn holds_vault(key: Seq<u8>, data: Seq<u8>, tokens: Map<Seq<char>, Seq<u8>>) -> bool {
    exists|n: Seq<u8>, j: Seq<u8>|
        n.len() == NONCE_SIZE && j.len() <= MAX_PLAINTEXT_LEN && data == #[trigger] sealed_with(
            key,
            n,
            j,
        ) && vault_from_json(j) == Some(tokens)
}

/// Why the vault could not be saved or loaded.
#[derive(Clone, Copy, Debug, PartialEq, Eq)]
pub enum VaultError {
    /// Encryption or decryption failed.
    Crypto(CryptoError),
    /// The decrypted vault is not a JSON object of tokens.
    Serialization,
}

/// The key under which the `i`-th token found is kept.
pub open spec fn token_key(i: nat) -> Seq<char> {
    "token_"@ + decimal(i)
}

/// `k` is the key of one of the first `n` tokens.
pub open spec fn is_token_key_below(k: Seq<char>, n: nat) -> bool {
    exists|i: nat| i < n && k == #[trigger] token_key(i)
}

/// The machine identifier that the vault key is derived from.
pub open spec fn machine_id_of(hostname: Option<Seq<char>>, username: Seq<char>) -> Seq<char> {
    "nullsec_"@ + match hostname {
        Some(h) => h,
        None => "unknown"@,
    } + "_"@ + username
}

/// The parts are, in order, the tokens of each directory, sorted and each
/// once.
pub open spec fn gathered_from(found: Seq<Seq<char>>, dirs: Seq<Seq<Seq<char>>>) -> bool {
    exists|parts: Seq<Seq<Seq<char>>>|
        parts.len() == dirs.len() && #[trigger] parts.flatten() == found && forall|i: int|
            0 <= i < dirs.len() ==> sorted_set_of(#[trigger] parts[i], tokens_in_texts(dirs[i]))
}

/// The texts of each directory's files.
pub open spec fn dirs_view(dirs: Seq<Vec<String>>) -> Seq<Seq<Seq<char>>> {
    dirs.map_values(|d: Vec<String>| string_texts(d@))
}

/// The key `token_<i>`.
fn token_key_string(i: usize) -> (s: String)
    ensures
        s@ == token_key(i as nat),
{
    let mut v: Vec<char> = chars_of("token_");
    push_decimal(i as u64, &mut v);
    string_from_chars(v.as_slice())
}


/// Different positions get different keys.
pub proof fn lemma_token_key_injective(i: nat, j: nat)
    requires
        token_key(i) == token_key(j),
    ensures
        i == j,
{
    let p = "token_"@;
    assert(token_key(i).skip(p.len() as int) =~= decimal(i));
    assert(token_key(j).skip(p.len() as int) =~= decimal(j));
    lemma_decimal_injective(i, j);
}

/// After securing `found`, the store holds, besides what it held under other
/// keys, the `i`-th token scrambled under `token_<i>`.
pub open spec fn secured(
    before: Map<Seq<char>, Seq<u8>>,
    after: Map<Seq<char>, Seq<u8>>,
    found: Seq<Seq<char>>,
) -> bool {
    &&& forall|k: Seq<char>|
        #[trigger] after.dom().contains(k) <==> (before.dom().contains(k) || is_token_key_below(
            k,
            found.len(),
        ))
    &&& forall|k: Seq<char>|
        before.dom().contains(k) && !is_token_key_below(k, found.len()) ==> #[trigger] after[k]
            == before[k]
    &&& forall|i: nat|
        i < found.len() ==> #[trigger] after[token_key(i)] == obfuscated(
            after[token_key(i)][0],
            found[i as int],
        )
    &&& forall|i: nat|
        i < found.len() ==> deobfuscated(#[trigger] after[token_key(i)]) == Some(found[i as int])
}

/// Secures tokens found in the chat client's database: keeps them scrambled
/// in memory and stores them encrypted.
pub struct TokenVault {
    config: ShieldConfig,
    tokens: TokenStore,
    crypto: TokenCrypto,
    vault_path: String,
}

impl TokenVault {
    /// The store is well formed.
    pub closed spec fn wf(&self) -> bool {
        self.tokens.wf()
    }

    /// The scrambled tokens, by key.
    pub closed spec fn tokens(&self) -> Map<Seq<char>, Seq<u8>> {
        self.tokens@
    }

    /// The key of the vault's encryption.
    pub closed spec fn key(&self) -> Seq<u8> {
        self.crypto.key()
    }

    /// The configuration the vault was made with.
    pub closed spec fn config(&self) -> ConfigView {
        self.config@
    }

    /// Where the vault is stored.
    pub closed spec fn path(&self) -> Seq<char> {
        self.vault_path@
    }

    /// An empty vault stored at `vault_path`, encrypted under the key derived
    /// from `machine_id`.
    pub fn new(config: &ShieldConfig, machine_id: &str, vault_path: String) -> (v: TokenVault)
        ensures
            v.wf(),
            v.tokens() == Map::<Seq<char>, Seq<u8>>::empty(),
            v.key() == crate::crypto::derived_key(machine_id@),
            v.config() == config@,
            v.path() == vault_path@,
    {
        TokenVault {
            config: config.duplicate(),
            tokens: TokenStore::new(),
            crypto: TokenCrypto::new(machine_id),
            vault_path,
        }
    }

    /// The identifier of this machine: `nullsec_<hostname>_<username>`, with
    /// `unknown` for a hostname that could not be read.
    pub fn get_machine_id(hostname: Option<&str>, username: &str) -> (id: String)
        ensures
            id@ == machine_id_of(
                match hostname {
                    Some(h) => Some(h@),
                    None => None,
                },
                username@,
            ),
    {
        let mut v: Vec<char> = chars_of("nullsec_");
        match hostname {
            Some(h) => push_str_chars(&mut v, h),
            None => push_str_chars(&mut v, "unknown"),
        }
        push_str_chars(&mut v, "_");
        push_str_chars(&mut v, username);
        string_from_chars(v.as_slice())
    }

    /// Where the vault is stored.
    pub fn vault_path(&self) -> (p: &String)
        ensures
            p@ == self.path(),
    {
        &self.vault_path
    }

    /// The scrambled token kept under `key`.
    pub fn token(&self, key: &str) -> (r: Option<&Vec<u8>>)
        requires
            self.wf(),
        ensures
            r matches Some(v) ==> self.tokens().dom().contains(key@) && self.tokens()[key@] == v@,
            r is None ==> !self.tokens().dom().contains(key@),
    {
        self.tokens.get(key)
    }

    /// The tokens found in the chat client's database directories, given
    /// the texts of each directory's table and log files: each directory's
    /// tokens sorted and each once, one directory after another.
    pub fn gather_tokens(dirs: &Vec<Vec<String>>) -> (found: Vec<String>)
        ensures
            gathered_from(string_texts(found@), dirs_view(dirs@)),
    {
        let mut found: Vec<String> = Vec::new();
        let ghost mut parts: Seq<Seq<Seq<char>>> = Seq::empty();
        let mut i: usize = 0;
        while i < dirs.len()
            invariant
                i <= dirs.len(),
                parts.len() == i,
                parts.flatten() == string_texts(found@),
                forall|k: int|
                    0 <= k < i ==> sorted_set_of(#[trigger] parts[k], tokens_in_texts(dirs_view(dirs@)[k])),
            decreases dirs.len() - i,
        {
            let mut part = extract_tokens(&dirs[i]);
            let ghost p = string_texts(part@);
            let ghost before = string_texts(found@);
            found.append(&mut part);
            proof {
                assert(dirs_view(dirs@)[i as int] == string_texts(dirs@[i as int]@));
                parts.lemma_flatten_push(p);
                assert(string_texts(found@) =~= before + p);
                parts = parts.push(p);
            }
            i = i + 1;
        }
        proof {
            assert(dirs_view(dirs@).len() == dirs@.len());
        }
        found
    }

    /// The encrypted vault: the tokens written as JSON and encrypted.
    pub fn save_vault(&self) -> (res: Result<Vec<u8>, VaultError>)
        requires
            self.wf(),
        ensures
            res matches Ok(b) ==> holds_vault(self.key(), b@, self.tokens()),
            res matches Err(e) ==> e == VaultError::Crypto(CryptoError::EncryptionFailed),
            res is Err ==> exists|j: Seq<u8>|
                j.len() > MAX_PLAINTEXT_LEN && #[trigger] vault_from_json(j) == Some(self.tokens()),
    {
        let json = match vault_to_json(&self.tokens.entries) {
            Ok(j) => j,
            Err(_) => {
                return Err(VaultError::Serialization);
            },
        };
        let res = self.crypto.encrypt(json.as_slice());
        match res {
            Ok(b) => {
                proof {
                    let n = choose|n: Seq<u8>|
                        n.len() == NONCE_SIZE && b@ == sealed_with(self.key(), n, json@);
                    assert(holds_vault(self.key(), b@, self.tokens())) by {
                        assert(n.len() == NONCE_SIZE && json@.len() <= MAX_PLAINTEXT_LEN && b@
                            == sealed_with(self.key(), n, json@) && vault_from_json(json@) == Some(
                            self.tokens(),
                        ));
                    }
                }
                Ok(b)
            },
            Err(e) => {
                assert(json@.len() > MAX_PLAINTEXT_LEN && vault_from_json(json@) == Some(self.tokens()));
                Err(VaultError::Crypto(e))
            },
        }
    }

    /// Replaces the tokens with those of an encrypted vault. A vault that
    /// `save_vault` wrote under the same key restores the tokens it held.
    pub fn load_vault(&mut self, encrypted: &[u8]) -> (res: Result<(), VaultError>)
        requires
            old(self).wf(),
        ensures
            final(self).wf(),
            final(self).key() == old(self).key(),
            final(self).config() == old(self).config(),
            final(self).path() == old(self).path(),
            match crate::crypto::opened(old(self).key(), encrypted@) {
                Err(e) => res == Err::<(), VaultError>(VaultError::Crypto(e)) && final(self).tokens()
                    == old(self).tokens(),
                Ok(j) => match vault_from_json(j) {
                    None => res == Err::<(), VaultError>(VaultError::Serialization)
                        && final(self).tokens() == old(self).tokens(),
                    Some(m) => res is Ok && final(self).tokens() == m,
                },
            },
            forall|m: Map<Seq<char>, Seq<u8>>|
                #[trigger] holds_vault(old(self).key(), encrypted@, m) ==> res is Ok
                    && final(self).tokens() == m,
    {
        let decrypted = self.crypto.decrypt(encrypted);
        let ghost key = self.key();
        proof {
            assert forall|m: Map<Seq<char>, Seq<u8>>|
                #[trigger] holds_vault(key, encrypted@, m) implies (decrypted matches Ok(v)
                && vault_from_json(v@) == Some(m)) by {
                let (n, j) = choose|n: Seq<u8>, j: Seq<u8>|
                    n.len() == NONCE_SIZE && j.len() <= MAX_PLAINTEXT_LEN && encrypted@
                        == #[trigger] sealed_with(key, n, j) && vault_from_json(j) == Some(m);
                assert(encrypted@ == sealed_with(key, n, j));
            }
        }
        let plain = match decrypted {
            Ok(p) => p,
            Err(e) => {
                return Err(VaultError::Crypto(e));
            },
        };
        match vault_from_json_bytes(plain.as_slice()) {
            Ok(entries) => {
                self.tokens = TokenStore::from_entries(entries);
                Ok(())
            },
            Err(_) => Err(VaultError::Serialization),
        }
    }
    /// Keeps the found tokens scrambled under `token_0`, `token_1`, ... and
    /// gives the encrypted vault to store. Where the configuration leaves the
    /// vault off, or no token was found, nothing is kept or stored: `None`,
    /// and the store is left as it was.
    pub fn secure_tokens(&mut self, found: &Vec<String>) -> (res: Result<Option<Vec<u8>>, VaultError>)
        requires
            old(self).wf(),
        ensures
            final(self).wf(),
            final(self).key() == old(self).key(),
            final(self).config() == old(self).config(),
            final(self).path() == old(self).path(),
            !old(self).config().token_vault || found@.len() == 0 ==> (res matches Ok(None))
                && final(self).tokens() == old(self).tokens(),
            old(self).config().token_vault && found@.len() > 0 ==> secured(
                old(self).tokens(),
                final(self).tokens(),
                string_texts(found@),
            ),
            old(self).config().token_vault && found@.len() > 0 ==> match res {
                Ok(Some(b)) => holds_vault(final(self).key(), b@, final(self).tokens()),
                Ok(None) => false,
                Err(e) => e == VaultError::Crypto(CryptoError::EncryptionFailed) && exists|j: Seq<u8>|
                    j.len() > MAX_PLAINTEXT_LEN && #[trigger] vault_from_json(j) == Some(
                        final(self).tokens(),
                    ),
            },
    {
        if !self.config.token_vault || found.len() == 0 {
            return Ok(None);
        }
        let ghost start = self.tokens();
        let ghost f = string_texts(found@);
        let mut i: usize = 0;
        while i < found.len()
            invariant
                i <= found.len(),
                self.wf(),
                self.key() == old(self).key(),
                self.config() == old(self).config(),
                self.path() == old(self).path(),
                start == old(self).tokens(),
                f == string_texts(found@),
                secured(start, self.tokens(), f.take(i as int)),
            decreases found.len() - i,
        {
            let ghost before = self.tokens();
            let key = token_key_string(i);
            let value = obfuscate_token(found[i].as_str());
            proof {
                crate::crypto::lemma_deobfuscate_obfuscated(value@[0], found@[i as int]@);
            }
            self.tokens.insert(key, value);
            let ghost after = self.tokens();
            let ghost ft = f.take(i + 1);
            proof {
                assert(after == before.insert(token_key(i as nat), value@));
                assert forall|k: Seq<char>| is_token_key_below(k, (i + 1) as nat) <==> (
                is_token_key_below(k, i as nat) || k == token_key(i as nat)) by {
                    if is_token_key_below(k, (i + 1) as nat) {
                        let j = choose|j: nat| j < i + 1 && k == #[trigger] token_key(j);
                        if j < i {
                            assert(j < i && k == token_key(j));
                        }
                    }
                    if is_token_key_below(k, i as nat) {
                        let j = choose|j: nat| j < i && k == #[trigger] token_key(j);
                        assert(j < i + 1 && k == token_key(j));
                    }
                    if k == token_key(i as nat) {
                        assert((i as nat) < i + 1 && k == token_key(i as nat));
                    }
                }
                assert(ft.len() == i + 1);
                assert(f.take(i as int).len() == i);
                assert forall|k: Seq<char>| #[trigger] after.dom().contains(k) <==> (
                start.dom().contains(k) || is_token_key_below(k, ft.len())) by {
                    assert(before.dom().contains(k) <==> (start.dom().contains(k)
                        || is_token_key_below(k, i as nat)));
                }
                assert forall|k: Seq<char>|
                    start.dom().contains(k) && !is_token_key_below(k, ft.len()) implies #[trigger] after[k]
                    == start[k] by {
                    assert(k != token_key(i as nat));
                    assert(!is_token_key_below(k, i as nat));
                    assert(before[k] == start[k]);
                }
                assert forall|j: nat| j < ft.len() implies #[trigger] after[token_key(j)]
                    == obfuscated(after[token_key(j)][0], ft[j as int]) by {
                    if j < i {
                        assert(f.take(i as int)[j as int] == ft[j as int]);
                        if token_key(j) == token_key(i as nat) {
                            lemma_token_key_injective(j, i as nat);
                        }
                    } else {
                        assert(ft[j as int] == found@[i as int]@);
                        assert(after[token_key(j)] == obfuscated(value@[0], ft[j as int]));
                    }
                }
                assert forall|j: nat| j < ft.len() implies deobfuscated(#[trigger] after[token_key(j)])
                    == Some(ft[j as int]) by {
                    if j < i {
                        assert(f.take(i as int)[j as int] == ft[j as int]);
                        if token_key(j) == token_key(i as nat) {
                            lemma_token_key_injective(j, i as nat);
                        }
                    } else {
                        assert(ft[j as int] == found@[i as int]@);
                    }
                }
            }
            i = i + 1;
        }
        assert(f.take(f.len() as int) =~= f);
        match self.save_vault() {
            Ok(b) => Ok(Some(b)),
            Err(e) => Err(e),
        }
    }
}

} // verus!
