//! The stateful request handler and its tree cache.
//!
//! The handler owns a cache of parsed syntax trees keyed by
//! (session, buffer): one live tree per key, replaced wholesale whenever
//! the same buffer is parsed again, shared by every connection the daemon
//! serves. Handling a payload has two phases. `handle_request` decodes the
//! payload and resolves the language, touching no state; when it asks for
//! the buffer's content, the caller reads the file and hands the text to
//! `finish_highlight`, which parses it and stores the tree.

use vstd::prelude::*;

use crate::codec::Request;
use crate::codec::decode;
use crate::codec::decode_spec;

verus! {

#[verifier::external_type_specification]
#[verifier::external_body]
pub struct ExLanguage(tree_sitter::Language);

#[verifier::external_type_specification]
#[verifier::external_body]
pub struct ExTree(tree_sitter::Tree);

#[verifier::external_type_specification]
#[verifier::external_body]
pub struct ExParser(tree_sitter::Parser);

/// Whether the grammar registry resolves a language name. Today the one
/// grammar compiled in is Rust's, under either of its two accepted names.
pub open spec fn lang_known(name: Seq<char>) -> bool {
    name == "rust"@ || name == "rust-like"@
}

/// Relies on `tree_sitter_rust::language`: the compiled-in Rust grammar.
#[verifier::external_body]
fn rust_language() -> tree_sitter::Language {
    tree_sitter_rust::language()
}

/// The grammar registry: a pure mapping from language names to grammars.
fn get_lang(name: &str) -> (r: Option<tree_sitter::Language>)
    ensures
        r is Some <==> lang_known(name@),
{
    if str_eq(name, "rust") || str_eq(name, "rust-like") {
        Some(rust_language())
    } else {
        None
    }
}

/// Relies on `tree_sitter::Parser::new`: a fresh parser with no language
/// assigned.
#[verifier::external_body]
fn parser_new() -> tree_sitter::Parser {
    tree_sitter::Parser::new()
}

/// Relies on `tree_sitter::Parser::set_language`: assigns the grammar,
/// reporting failure when the grammar's ABI version does not fit the
/// library.
#[verifier::external_body]
fn parser_set_language(p: &mut tree_sitter::Parser, lang: &tree_sitter::Language) -> bool {
    p.set_language(*lang).is_ok()
}

/// Relies on `tree_sitter::Parser::parse`: parses the full text, returning
/// no tree when no language is assigned or parsing was cancelled.
#[verifier::external_body]
fn parser_parse(p: &mut tree_sitter::Parser, text: &str) -> Option<tree_sitter::Tree> {
    p.parse(text.as_bytes(), None)
}

/// Relies on `str`'s own equality: two string slices are equal exactly
/// when they hold the same characters.
#[verifier::external_body]
fn str_eq(a: &str, b: &str) -> (r: bool)
    ensures
        r == (a@ == b@),
{
    a == b
}

/// Parses `text` with the grammar `lang`. No tree comes back when the
/// parser library refuses the grammar or gives none.
pub fn parse_text(lang: &tree_sitter::Language, text: &str) -> Option<tree_sitter::Tree> {
    let mut p = parser_new();
    if !parser_set_language(&mut p, lang) {
        return None;
    }
    parser_parse(&mut p, text)
}

/// One cached tree: the most recent parse of (session, buffer).
struct CacheEntry {
    session: String,
    buffer: String,
    tree: tree_sitter::Tree,
}

/// The composite key a tree is cached under.
pub open spec fn entry_key(session: Seq<char>, buffer: Seq<char>) -> (Seq<char>, Seq<char>) {
    (session, buffer)
}

/// The mapping a sequence of cache entries denotes: later entries win.
spec fn cache_map(entries: Seq<CacheEntry>) -> Map<
    (Seq<char>, Seq<char>),
    tree_sitter::Tree,
>
    decreases entries.len(),
{
    if entries.len() == 0 {
        Map::empty()
    } else {
        cache_map(entries.drop_last()).insert(
            entry_key(entries.last().session@, entries.last().buffer@),
            entries.last().tree,
        )
    }
}

/// What happened to one highlight request once the buffer's content was in
/// hand.
#[derive(Clone, Copy, PartialEq, Eq, Structural, Debug)]
pub enum Outcome {
    /// A tree was parsed and cached.
    Parsed,
    /// The parser produced no tree; the cache is untouched.
    ParseFailed,
    /// The buffer's content could not be read; the cache is untouched.
    ReadFailed,
}

/// What the serving loop should do with one connection's payload.
pub enum Step {
    /// The payload was empty: the shutdown sentinel. Stop serving.
    Stop,
    /// The payload does not decode; log it and keep serving.
    Reject,
    /// The request names a language the registry does not know; by policy
    /// the request is dropped and the cache stays as it is.
    UnknownLanguage,
    /// A well-formed highlight request: read the file at `path` and hand
    /// its content to `finish_highlight`.
    ReadFile { session: String, buffer: String, language: tree_sitter::Language, path: String },
}

/// Type responsible for handling requests.
///
/// This type is stateful, as requests might have side effects (parsing
/// generates trees that can be reused, for instance).
pub struct RequestHandler {
    /// Cached parsed trees, one per (session, buffer).
    trees: Vec<CacheEntry>,
}

impl View for RequestHandler {
    type V = Map<(Seq<char>, Seq<char>), tree_sitter::Tree>;

    closed spec fn view(&self) -> Map<(Seq<char>, Seq<char>), tree_sitter::Tree> {
        cache_map(self.trees@)
    }
}

impl RequestHandler {
    /// Entries cache distinct keys: at most one live tree per
    /// (session, buffer).
    pub closed spec fn wf(&self) -> bool {
        keys_unique(self.trees@)
    }

    /// A fresh handler with an empty cache.
    pub fn new() -> (h: RequestHandler)
        ensures
            h.wf(),
            h@ == Map::<(Seq<char>, Seq<char>), tree_sitter::Tree>::empty(),
    {
        RequestHandler { trees: Vec::new() }
    }
}

/// Distinct entries cache distinct keys.
spec fn keys_unique(entries: Seq<CacheEntry>) -> bool {
    forall|i: int, j: int|
        0 <= i < j < entries.len() ==> entry_key(entries[i].session@, entries[i].buffer@)
            != entry_key(entries[j].session@, entries[j].buffer@)
}

/// A key is in the denoted mapping exactly when some entry carries it.
proof fn lemma_cache_map_contains(entries: Seq<CacheEntry>, k: (Seq<char>, Seq<char>))
    ensures
        cache_map(entries).contains_key(k) <==> exists|i: int|
            0 <= i < entries.len() && entry_key(entries[i].session@, entries[i].buffer@) == k,
    decreases entries.len(),
{
    if entries.len() == 0 {
    } else {
        let n = entries.len() as int;
        lemma_cache_map_contains(entries.drop_last(), k);
        if entry_key(entries.last().session@, entries.last().buffer@) == k {
            assert(entry_key(entries[n - 1].session@, entries[n - 1].buffer@) == k);
        } else {
            if cache_map(entries).contains_key(k) {
                let i = choose|i: int|
                    0 <= i < entries.drop_last().len() && entry_key(
                        entries.drop_last()[i].session@,
                        entries.drop_last()[i].buffer@,
                    ) == k;
                assert(entry_key(entries[i].session@, entries[i].buffer@) == k);
            }
            if exists|i: int|
                0 <= i < entries.len() && entry_key(entries[i].session@, entries[i].buffer@)
                    == k {
                let i = choose|i: int|
                    0 <= i < entries.len() && entry_key(entries[i].session@, entries[i].buffer@)
                        == k;
                assert(i < n - 1);
                assert(entry_key(
                    entries.drop_last()[i].session@,
                    entries.drop_last()[i].buffer@,
                ) == k);
            }
        }
    }
}

/// Each entry of a well-formed cache is what the denoted mapping holds at
/// its key.
proof fn lemma_cache_map_index(entries: Seq<CacheEntry>, i: int)
    requires
        keys_unique(entries),
        0 <= i < entries.len(),
    ensures
        cache_map(entries).contains_key(entry_key(entries[i].session@, entries[i].buffer@)),
        cache_map(entries)[entry_key(entries[i].session@, entries[i].buffer@)]
            == entries[i].tree,
    decreases entries.len(),
{
    let n = entries.len() as int;
    let k = entry_key(entries[i].session@, entries[i].buffer@);
    if i == n - 1 {
        assert(entries.last() == entries[i]);
    } else {
        assert(keys_unique(entries.drop_last()));
        assert(entries.drop_last()[i] == entries[i]);
        lemma_cache_map_index(entries.drop_last(), i);
        assert(entry_key(entries.last().session@, entries.last().buffer@) != k);
    }
}

/// Replacing the tree of one entry replaces that key's image and nothing
/// else.
proof fn lemma_cache_map_update(entries: Seq<CacheEntry>, i: int, e2: CacheEntry)
    requires
        keys_unique(entries),
        0 <= i < entries.len(),
        entry_key(e2.session@, e2.buffer@) == entry_key(entries[i].session@, entries[i].buffer@),
    ensures
        cache_map(entries.update(i, e2)) == cache_map(entries).insert(
            entry_key(e2.session@, e2.buffer@),
            e2.tree,
        ),
    decreases entries.len(),
{
    let n = entries.len() as int;
    let k = entry_key(e2.session@, e2.buffer@);
    let upd = entries.update(i, e2);
    if i == n - 1 {
        assert(upd.drop_last() =~= entries.drop_last());
        assert(upd.last() == e2);
        assert(cache_map(upd) =~= cache_map(entries).insert(k, e2.tree));
    } else {
        assert(upd.drop_last() =~= entries.drop_last().update(i, e2));
        assert(upd.last() == entries.last());
        assert(keys_unique(entries.drop_last()));
        assert(entries.drop_last()[i] == entries[i]);
        lemma_cache_map_update(entries.drop_last(), i, e2);
        assert(entry_key(entries.last().session@, entries.last().buffer@) != k);
        assert(cache_map(upd) =~= cache_map(entries).insert(k, e2.tree));
    }
}

/// A well-formed cache denotes a mapping with exactly one key per entry.
proof fn lemma_cache_map_dom_len(entries: Seq<CacheEntry>)
    requires
        keys_unique(entries),
    ensures
        cache_map(entries).dom().finite(),
        cache_map(entries).dom().len() == entries.len(),
    decreases entries.len(),
{
    if entries.len() == 0 {
        assert(cache_map(entries).dom() =~= Set::<(Seq<char>, Seq<char>)>::empty());
    } else {
        let n = entries.len() as int;
        let k = entry_key(entries.last().session@, entries.last().buffer@);
        assert(keys_unique(entries.drop_last()));
        lemma_cache_map_dom_len(entries.drop_last());
        lemma_cache_map_contains(entries.drop_last(), k);
        assert(forall|i: int|
            0 <= i < n - 1 ==> entry_key(
                entries.drop_last()[i].session@,
                entries.drop_last()[i].buffer@,
            ) != k);
        assert(!cache_map(entries.drop_last()).contains_key(k));
        assert(cache_map(entries).dom() =~= cache_map(entries.drop_last()).dom().insert(k));
        vstd::set::axiom_set_insert_len(cache_map(entries.drop_last()).dom(), k);
    }
}

impl RequestHandler {
    /// Stores `tree` for (`session`, `buffer`), replacing any tree cached
    /// there before.
    fn cache_insert(&mut self, session: String, buffer: String, tree: tree_sitter::Tree)
        requires
            old(self).wf(),
        ensures
            final (self).wf(),
            final (self)@ == old(self)@.insert((session@, buffer@), tree),
    {
        let n = self.trees.len();
        let mut i: usize = 0;
        while i < n
            invariant
                old(self).wf(),
                i <= n,
                n == self.trees@.len(),
                self.trees@ == old(self).trees@,
                forall|m: int|
                    0 <= m < i ==> entry_key(self.trees@[m].session@, self.trees@[m].buffer@) != (
                    session@,
                    buffer@,
                ),
            decreases n - i,
        {
            let hit = str_eq(self.trees[i].session.as_str(), session.as_str()) && str_eq(
                self.trees[i].buffer.as_str(),
                buffer.as_str(),
            );
            if hit {
                self.trees[i].tree = tree;
                proof {
                    let e2 = self.trees@[i as int];
                    assert(entry_key(e2.session@, e2.buffer@) == (session@, buffer@));
                    lemma_cache_map_update(old(self).trees@, i as int, e2);
                    assert(forall|m: int|
                        0 <= m < n ==> entry_key(
                            self.trees@[m].session@,
                            self.trees@[m].buffer@,
                        ) == entry_key(
                            old(self).trees@[m].session@,
                            old(self).trees@[m].buffer@,
                        ));
                }
                return ;
            }
            i = i + 1;
        }
        let ghost before = self.trees@;
        self.trees.push(CacheEntry { session, buffer, tree });
        proof {
            assert(self.trees@.drop_last() =~= before);
            assert(self.trees@.last() == self.trees@[n as int]);
            assert(self.wf());
        }
    }

    /// The tree cached for (`session`, `buffer`), if any.
    pub fn get_tree(&self, session: &str, buffer: &str) -> (r: Option<&tree_sitter::Tree>)
        requires
            self.wf(),
        ensures
            match r {
                Some(t) => self@.contains_key((session@, buffer@)) && *t == self@[(
                    session@,
                    buffer@,
                )],
                None => !self@.contains_key((session@, buffer@)),
            },
    {
        let n = self.trees.len();
        let mut i: usize = 0;
        while i < n
            invariant
                i <= n,
                n == self.trees@.len(),
                self.wf(),
                forall|m: int|
                    0 <= m < i ==> entry_key(self.trees@[m].session@, self.trees@[m].buffer@) != (
                    session@,
                    buffer@,
                ),
            decreases n - i,
        {
            let hit = str_eq(self.trees[i].session.as_str(), session) && str_eq(
                self.trees[i].buffer.as_str(),
                buffer,
            );
            if hit {
                proof {
                    lemma_cache_map_index(self.trees@, i as int);
                }
                return Some(&self.trees[i].tree);
            }
            i = i + 1;
        }
        proof {
            lemma_cache_map_contains(self.trees@, (session@, buffer@));
        }
        None
    }

    /// How many (session, buffer) keys hold a cached tree.
    pub fn cached_count(&self) -> (n: usize)
        requires
            self.wf(),
        ensures
            n as nat == self@.dom().len(),
    {
        proof {
            lemma_cache_map_dom_len(self.trees@);
        }
        self.trees.len()
    }
}

impl RequestHandler {
    /// Decodes one connection's payload and decides what the serving loop
    /// does with it. This phase never touches the cache. An empty payload
    /// is the shutdown sentinel; a payload that does not decode is
    /// rejected (the loop keeps serving); a request whose language the
    /// registry does not know is dropped; otherwise the caller is asked to
    /// read the buffer's content and hand it to `finish_highlight`.
    pub fn handle_request(&self, request: &str) -> (step: Step)
        ensures
            step is Stop <==> request@.len() == 0,
            step is Reject <==> request@.len() != 0 && decode_spec(request@) is None,
            (match decode_spec(request@) {
                Some(rv) => request@.len() != 0 ==> (if lang_known(rv.language) {
                    step matches Step::ReadFile { session, buffer, path, .. } && session@
                        == rv.session && buffer@ == rv.buffer && path@ == rv.path
                } else {
                    step is UnknownLanguage
                }),
                None => true,
            }),
    {
        if request.is_empty() {
            return Step::Stop;
        }
        match decode(request) {
            Err(_) => Step::Reject,
            Ok(req) => {
                let Request::Highlight { session, buffer, language, path } = req;
                match get_lang(language.as_str()) {
                    None => Step::UnknownLanguage,
                    Some(lang) => Step::ReadFile { session, buffer, language: lang, path },
                }
            },
        }
    }

    /// Stores the result of one parse. A tree replaces whatever the cache
    /// held for (`session`, `buffer`); no tree leaves the cache as it was.
    pub fn apply_parse(
        &mut self,
        session: String,
        buffer: String,
        parsed: Option<tree_sitter::Tree>,
    ) -> (o: Outcome)
        requires
            old(self).wf(),
        ensures
            final (self).wf(),
            match parsed {
                Some(t) => final (self)@ == old(self)@.insert((session@, buffer@), t) && o
                    == Outcome::Parsed,
                None => final (self)@ == old(self)@ && o == Outcome::ParseFailed,
            },
    {
        match parsed {
            Some(t) => {
                self.cache_insert(session, buffer, t);
                Outcome::Parsed
            },
            None => Outcome::ParseFailed,
        }
    }

    /// Second phase of a highlight request: the caller read the buffer's
    /// content (or failed to), and the tree parsed from it is cached. Only
    /// a successful parse changes the cache, and it changes exactly the
    /// entry for (`session`, `buffer`).
    pub fn finish_highlight(
        &mut self,
        session: String,
        buffer: String,
        language: &tree_sitter::Language,
        content: Option<String>,
    ) -> (o: Outcome)
        requires
            old(self).wf(),
        ensures
            final (self).wf(),
            content is None ==> o == Outcome::ReadFailed && final (self)@ == old(self)@,
            content is Some ==> match o {
                Outcome::Parsed => exists|t: tree_sitter::Tree|
                    final (self)@ == old(self)@.insert((session@, buffer@), t),
                Outcome::ParseFailed => final (self)@ == old(self)@,
                Outcome::ReadFailed => false,
            },
    {
        match content {
            None => Outcome::ReadFailed,
            Some(text) => {
                let parsed = parse_text(language, text.as_str());
                self.apply_parse(session, buffer, parsed)
            },
        }
    }
}

/// Cache replacement: storing one parse and then another for the same
/// (session, buffer) key is the same as storing only the second; the key
/// then holds the second tree, and no other key appears.
pub proof fn lemma_cache_replacement(
    m: Map<(Seq<char>, Seq<char>), tree_sitter::Tree>,
    k: (Seq<char>, Seq<char>),
    t1: tree_sitter::Tree,
    t2: tree_sitter::Tree,
)
    ensures
        m.insert(k, t1).insert(k, t2) == m.insert(k, t2),
        m.insert(k, t1).insert(k, t2)[k] == t2,
        m.insert(k, t1).insert(k, t2).dom() == m.dom().insert(k),
{
    assert(m.insert(k, t1).insert(k, t2) =~= m.insert(k, t2));
    assert(m.insert(k, t2).dom() =~= m.dom().insert(k));
}

/// Starting from an empty cache, two successive parses of the same
/// (session, buffer) leave exactly one entry.
pub proof fn lemma_cache_replacement_single(
    k: (Seq<char>, Seq<char>),
    t1: tree_sitter::Tree,
    t2: tree_sitter::Tree,
)
    ensures
        Map::<(Seq<char>, Seq<char>), tree_sitter::Tree>::empty().insert(k, t1).insert(
            k,
            t2,
        ).dom().len() == 1,
        Map::<(Seq<char>, Seq<char>), tree_sitter::Tree>::empty().insert(k, t1).insert(k, t2)[k]
            == t2,
{
    let m0 = Map::<(Seq<char>, Seq<char>), tree_sitter::Tree>::empty();
    lemma_cache_replacement(m0, k, t1, t2);
    assert(m0.dom() =~= Set::<(Seq<char>, Seq<char>)>::empty());
    vstd::set::axiom_set_insert_len(m0.dom(), k);
}

/// Cache isolation: a tree stored under one session never changes what
/// another session sees for the same buffer name, neither whether a tree
/// is there nor which one.
pub proof fn lemma_cache_isolation(
    m: Map<(Seq<char>, Seq<char>), tree_sitter::Tree>,
    session1: Seq<char>,
    session2: Seq<char>,
    buffer: Seq<char>,
    t: tree_sitter::Tree,
)
    requires
        session1 != session2,
    ensures
        m.insert((session1, buffer), t).contains_key((session2, buffer)) == m.contains_key(
            (session2, buffer),
        ),
        m.contains_key((session2, buffer)) ==> m.insert((session1, buffer), t)[(session2, buffer)]
            == m[(session2, buffer)],
{
    assert((session1, buffer) != (session2, buffer));
}

} // verus!
