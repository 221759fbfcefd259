//! The localization repository.
//!
//! Resolves symbolic message and attribute keys into formatted localized
//! text. Multiple locales may be resident at once and nothing is ever
//! evicted; one active locale pointer selects the catalog for lookups.
//! Resolution falls back to the default locale's catalog only when the
//! active locale was never loaded — a loaded catalog that lacks a key
//! yields the MISSING sentinel rather than falling back. Each resident
//! locale carries a reload watch: an edge-triggered version comparison
//! against the pack store, so a caller can poll for live content edits.

use crate::fluent::{args_view, bundle_format, bundle_msgs, locale_canon, locale_parse};
use crate::language::{
    entry_of, next_version, version_of, LanguageFileDataSource, LanguagePack, PackEntry,
};
use vstd::prelude::*;
use vstd::string::StringExecFns;

verus! {

/// The placeholder returned whenever no sensible text can be resolved.
pub open spec fn missing_line() -> Seq<char> {
    "MISSING"@
}

/// The locale that is always resolvable and the fallback target.
pub open spec fn default_locale() -> Seq<char> {
    "en"@
}

/// Why a locale could not be loaded or addressed.
#[derive(Debug, Clone, Copy, PartialEq, Eq)]
pub enum LoadError {
    /// The locale identifier does not parse.
    InvalidLocale,
    /// The store holds no pack for the locale.
    ResourceNotFound,
}

/// Per-locale reload watch state: the pack-store version last consumed
/// through `has_reloaded`.
#[derive(Debug, Clone, PartialEq, Eq)]
pub struct LocaleWatcher {
    pub locale: String,
    pub seen: u64,
}

/// First watcher for `loc`, newest first.
pub open spec fn watcher_index(ws: Seq<LocaleWatcher>, loc: Seq<char>) -> Option<int>
    decreases ws.len(),
{
    if ws.len() == 0 {
        None
    } else if ws[0].locale@ == loc {
        Some(0)
    } else {
        match watcher_index(ws.skip(1), loc) {
            Some(i) => Some(i + 1),
            None => None,
        }
    }
}

/// The registered watch for `loc`, if any.
pub open spec fn watcher_of(ws: Seq<LocaleWatcher>, loc: Seq<char>) -> Option<LocaleWatcher> {
    match watcher_index(ws, loc) {
        Some(i) => Some(ws[i]),
        None => None,
    }
}

/// The index `watcher_index` returns is the first matching one, in range.
proof fn lemma_watcher_index(ws: Seq<LocaleWatcher>, loc: Seq<char>)
    ensures
        watcher_index(ws, loc) matches Some(i) ==> 0 <= i < ws.len() && ws[i].locale@ == loc && (
        forall|j: int| 0 <= j < i ==> ws[j].locale@ != loc),
        watcher_index(ws, loc) is None ==> forall|j: int|
            0 <= j < ws.len() ==> ws[j].locale@ != loc,
    decreases ws.len(),
{
    if ws.len() != 0 && ws[0].locale@ != loc {
        lemma_watcher_index(ws.skip(1), loc);
        if let Some(i) = watcher_index(ws.skip(1), loc) {
            assert forall|j: int| 0 <= j < i + 1 implies ws[j].locale@ != loc by {
                if j > 0 {
                    assert(ws.skip(1)[j - 1] == ws[j]);
                }
            }
        } else {
            assert forall|j: int| 0 <= j < ws.len() implies ws[j].locale@ != loc by {
                if j > 0 {
                    assert(ws.skip(1)[j - 1] == ws[j]);
                }
            }
        }
    }
}

/// If `i` is the first index whose watcher is for `loc`, lookup finds it.
proof fn lemma_watcher_index_found(ws: Seq<LocaleWatcher>, loc: Seq<char>, i: int)
    requires
        0 <= i < ws.len(),
        ws[i].locale@ == loc,
        forall|j: int| 0 <= j < i ==> ws[j].locale@ != loc,
    ensures
        watcher_index(ws, loc) == Some(i),
    decreases ws.len(),
{
    if i > 0 {
        assert forall|j: int| 0 <= j < i - 1 implies ws.skip(1)[j].locale@ != loc by {
            assert(ws.skip(1)[j] == ws[j + 1]);
        }
        assert(ws.skip(1)[i - 1] == ws[i]);
        lemma_watcher_index_found(ws.skip(1), loc, i - 1);
    }
}

/// Replacing the first watcher for a locale changes that locale's watch
/// and no other.
proof fn lemma_watcher_update(ws: Seq<LocaleWatcher>, i: int, w2: LocaleWatcher)
    requires
        0 <= i < ws.len(),
        ws[i].locale@ == w2.locale@,
        forall|j: int| 0 <= j < i ==> ws[j].locale@ != w2.locale@,
    ensures
        watcher_of(ws.update(i, w2), w2.locale@) == Some(w2),
        forall|l: Seq<char>|
            l != w2.locale@ ==> watcher_of(ws.update(i, w2), l) == watcher_of(ws, l),
{
    let u = ws.update(i, w2);
    lemma_watcher_index_found(u, w2.locale@, i);
    assert forall|l: Seq<char>| l != w2.locale@ implies watcher_of(u, l) == watcher_of(ws, l) by {
        lemma_watcher_index_update_other(ws, i, w2, l);
        lemma_watcher_index(ws, l);
        lemma_watcher_index(u, l);
    }
}

proof fn lemma_watcher_index_update_other(
    ws: Seq<LocaleWatcher>,
    i: int,
    w2: LocaleWatcher,
    l: Seq<char>,
)
    requires
        0 <= i < ws.len(),
        ws[i].locale@ == w2.locale@,
        l != w2.locale@,
    ensures
        watcher_index(ws.update(i, w2), l) == watcher_index(ws, l),
    decreases ws.len(),
{
    let u = ws.update(i, w2);
    if i == 0 {
        assert(u.skip(1) =~= ws.skip(1));
    } else {
        assert(u[0] == ws[0]);
        if ws[0].locale@ != l {
            assert(u.skip(1) =~= ws.skip(1).update(i - 1, w2));
            lemma_watcher_index_update_other(ws.skip(1), i - 1, w2, l);
        }
    }
}

/// Registering a fresh watcher at the front changes that locale's watch
/// and no other.
proof fn lemma_watcher_insert_front(ws: Seq<LocaleWatcher>, w2: LocaleWatcher)
    ensures
        watcher_of(ws.insert(0, w2), w2.locale@) == Some(w2),
        forall|l: Seq<char>|
            l != w2.locale@ ==> watcher_of(ws.insert(0, w2), l) == watcher_of(ws, l),
{
    let u = ws.insert(0, w2);
    assert(u[0] == w2);
    assert(u.skip(1) =~= ws);
    assert forall|l: Seq<char>| l != w2.locale@ implies watcher_of(u, l) == watcher_of(ws, l) by {
        lemma_watcher_index(ws, l);
        if let Some(i) = watcher_index(ws, l) {
            assert(u[i + 1] == ws[i]);
        }
    }
}

/// The main interface of the localization layer: resident packs with
/// their reload watches, and the active locale pointer.
pub struct TextRepository {
    pub source: LanguageFileDataSource,
    pub watchers: Vec<LocaleWatcher>,
    pub first_language: String,
}

impl TextRepository {
    /// Whether a pack for `loc` was ever loaded into this repository.
    pub open spec fn is_loaded(self, loc: Seq<char>) -> bool {
        watcher_of(self.watchers@, loc) is Some
    }

    /// The locale whose catalog lookups use: the active locale if it was
    /// ever loaded, the default locale otherwise.
    pub open spec fn resolved_locale(self) -> Seq<char> {
        if self.is_loaded(self.first_language@) {
            self.first_language@
        } else {
            default_locale()
        }
    }

    /// The store entry lookups read.
    pub open spec fn resolved_entry(self) -> Option<PackEntry> {
        entry_of(self.source.packs@, self.resolved_locale())
    }

    /// What resolving `key` yields before the MISSING policy: nothing
    /// when no catalog is resolvable, when the catalog lacks the key, or
    /// when formatting fails.
    pub open spec fn message_opt(
        self,
        key: Seq<char>,
        args: Seq<(Seq<char>, Seq<char>)>,
    ) -> Option<Seq<char>> {
        match self.resolved_entry() {
            None => None,
            Some(e) => if !bundle_msgs(e.pack.bundle).contains(key) {
                None
            } else {
                bundle_format(e.pack.bundle, key, None, args)
            },
        }
    }

    /// What `get_message` returns: the resolved text, or MISSING.
    pub open spec fn message_of(self, key: Seq<char>, args: Seq<(Seq<char>, Seq<char>)>) -> Seq<
        char,
    > {
        match self.message_opt(key, args) {
            Some(s) => s,
            None => missing_line(),
        }
    }

    /// Like `message_opt`, for a named attribute of the message.
    pub open spec fn attr_opt(
        self,
        key: Seq<char>,
        attr: Seq<char>,
        args: Seq<(Seq<char>, Seq<char>)>,
    ) -> Option<Seq<char>> {
        match self.resolved_entry() {
            None => None,
            Some(e) => if !bundle_msgs(e.pack.bundle).contains(key) {
                None
            } else {
                bundle_format(e.pack.bundle, key, Some(attr), args)
            },
        }
    }

    /// What `get_attr` returns: the resolved attribute text, or MISSING.
    pub open spec fn attr_of(
        self,
        key: Seq<char>,
        attr: Seq<char>,
        args: Seq<(Seq<char>, Seq<char>)>,
    ) -> Seq<char> {
        match self.attr_opt(key, attr, args) {
            Some(s) => s,
            None => missing_line(),
        }
    }

    /// Builds a repository over the given pack store, loading the default
    /// locale immediately; fails exactly when the store has no pack for
    /// the default locale.
    pub fn new(source: LanguageFileDataSource) -> (r: Result<TextRepository, LoadError>)
        ensures
            match version_of(source.packs@, default_locale()) {
                Some(v) => match r {
                    Ok(repo) => {
                        &&& repo.source.packs@ == source.packs@
                        &&& repo.first_language@ == default_locale()
                        &&& repo.watchers@.len() == 1
                        &&& match watcher_of(repo.watchers@, default_locale()) {
                            Some(w) => w.seen == v,
                            None => false,
                        }
                    },
                    Err(e) => false,
                },
                None => match r {
                    Ok(repo) => false,
                    Err(e) => e == LoadError::ResourceNotFound,
                },
            },
    {
        let version = source.version_of("en");
        match version {
            None => Err(LoadError::ResourceNotFound),
            Some(v) => {
                let mut watchers: Vec<LocaleWatcher> = Vec::new();
                watchers.push(LocaleWatcher { locale: String::from_str("en"), seen: v });
                let repo = TextRepository {
                    source,
                    watchers,
                    first_language: String::from_str("en"),
                };
                Ok(repo)
            },
        }
    }

    /// Whether a watch is registered for the canonical locale `loc`.
    fn has_watcher(&self, loc: &str) -> (r: bool)
        ensures
            r == (watcher_of(self.watchers@, loc@) is Some),
    {
        proof {
            lemma_watcher_index(self.watchers@, loc@);
        }
        let key = String::from_str(loc);
        let mut i: usize = 0;
        while i < self.watchers.len()
            invariant
                key@ == loc@,
                i <= self.watchers@.len(),
                forall|j: int| 0 <= j < i ==> self.watchers@[j].locale@ != loc@,
            decreases self.watchers@.len() - i,
        {
            if self.watchers[i].locale == key {
                proof {
                    lemma_watcher_index_found(self.watchers@, loc@, i as int);
                }
                return true;
            }
            i = i + 1;
        }
        false
    }

    /// The pack that lookups read: the active locale's if it was loaded,
    /// else the default locale's.
    fn resolve_pack(&self) -> (r: Option<&LanguagePack>)
        ensures
            match r {
                Some(p) => self.resolved_entry() matches Some(e) && e.pack == *p,
                None => self.resolved_entry() is None,
            },
    {
        if self.has_watcher(self.first_language.as_str()) {
            self.source.get_language_pack(self.first_language.as_str())
        } else {
            self.source.get_language_pack("en")
        }
    }

    fn get_message_fallback(&self, key: &str, args: Option<&Vec<(String, String)>>) -> (r: Option<
        String,
    >)
        ensures
            match r {
                Some(s) => self.message_opt(key@, args_view(args)) == Some(s@),
                None => self.message_opt(key@, args_view(args)) is None,
            },
    {
        match self.resolve_pack() {
            None => None,
            Some(p) => crate::fluent::bundle_format_message(&p.bundle, key, args),
        }
    }

    /// The formatted text for `key` in the resolved catalog, substituting
    /// the interpolation arguments; the MISSING sentinel when the key is
    /// absent or formatting fails. Never an error.
    pub fn get_message(&self, key: &str, args: Option<&Vec<(String, String)>>) -> (r: String)
        ensures
            r@ == self.message_of(key@, args_view(args)),
    {
        match self.get_message_fallback(key, args) {
            Some(s) => s,
            None => String::from_str("MISSING"),
        }
    }

    fn get_attr_fallback(
        &self,
        key: &str,
        attr: &str,
        args: Option<&Vec<(String, String)>>,
    ) -> (r: Option<String>)
        ensures
            match r {
                Some(s) => self.attr_opt(key@, attr@, args_view(args)) == Some(s@),
                None => self.attr_opt(key@, attr@, args_view(args)) is None,
            },
    {
        match self.resolve_pack() {
            None => None,
            Some(p) => crate::fluent::bundle_format_attr(&p.bundle, key, attr, args),
        }
    }

    /// The formatted text for the named attribute of `key`; the MISSING
    /// sentinel under the same policy as `get_message`.
    pub fn get_attr(&self, key: &str, attr: &str, args: Option<&Vec<(String, String)>>) -> (r:
        String)
        ensures
            r@ == self.attr_of(key@, attr@, args_view(args)),
    {
        match self.get_attr_fallback(key, attr, args) {
            Some(s) => s,
            None => String::from_str("MISSING"),
        }
    }

    /// Makes `locale` resident and active. The watch for it is freshly
    /// registered at the store's current version. Fails, leaving the
    /// repository unchanged, exactly when the identifier does not parse
    /// or the store holds no pack for it.
    pub fn load(&mut self, locale: &str) -> (r: Result<(), LoadError>)
        ensures
            final(self).source.packs@ == old(self).source.packs@,
            match locale_canon(locale@) {
                None => r == Err::<(), LoadError>(LoadError::InvalidLocale) && final(self).watchers@ == old(self).watchers@ && final(self).first_language == old(self).first_language,
                Some(c) => match version_of(old(self).source.packs@, c) {
                    None => r == Err::<(), LoadError>(LoadError::ResourceNotFound) && final(self).watchers@ == old(self).watchers@ && final(self).first_language == old(self).first_language,
                    Some(v) => {
                        &&& r == Ok::<(), LoadError>(())
                        &&& final(self).first_language@ == c
                        &&& match watcher_of(final(self).watchers@, c) {
                            Some(w) => w.locale@ == c && w.seen == v,
                            None => false,
                        }
                        &&& forall|l: Seq<char>|
                            l != c ==> watcher_of(final(self).watchers@, l) == watcher_of(
                                old(self).watchers@,
                                l,
                            )
                    },
                },
            },
    {
        match locale_parse(locale) {
            None => Err(LoadError::InvalidLocale),
            Some((_lid, canon)) => {
                match self.source.version_of(canon.as_str()) {
                    None => Err(LoadError::ResourceNotFound),
                    Some(v) => {
                        self.set_watcher(canon.clone(), v);
                        self.first_language = canon;
                        Ok(())
                    },
                }
            },
        }
    }

    /// Registers (or re-registers) the watch for a canonical locale at
    /// version `seen`.
    fn set_watcher(&mut self, canon: String, seen: u64)
        ensures
            final(self).source == old(self).source,
            final(self).first_language == old(self).first_language,
            match watcher_of(final(self).watchers@, canon@) {
                Some(w) => w.locale@ == canon@ && w.seen == seen,
                None => false,
            },
            forall|l: Seq<char>|
                l != canon@ ==> watcher_of(final(self).watchers@, l) == watcher_of(
                    old(self).watchers@,
                    l,
                ),
    {
        let mut i: usize = 0;
        while i < self.watchers.len()
            invariant
                i <= self.watchers@.len(),
                *self == *old(self),
                forall|j: int| 0 <= j < i ==> self.watchers@[j].locale@ != canon@,
            decreases self.watchers@.len() - i,
        {
            if self.watchers[i].locale == canon {
                let ghost before = self.watchers@;
                let w2 = LocaleWatcher { locale: canon, seen };
                let ghost gw2 = w2;
                self.watchers[i] = w2;
                proof {
                    lemma_watcher_update(before, i as int, gw2);
                }
                return ;
            }
            i = i + 1;
        }
        proof {
            lemma_watcher_index(self.watchers@, canon@);
        }
        let w2 = LocaleWatcher { locale: canon, seen };
        let ghost gw2 = w2;
        let ghost before = self.watchers@;
        self.watchers.insert(0, w2);
        proof {
            lemma_watcher_insert_front(before, gw2);
        }
    }

    /// Consumes the change signal for `locale`'s watch: true when the
    /// store's version differs from the last one seen (which is then
    /// recorded), and true unconditionally for a locale with no
    /// registered watch — unknown reads as needing attention.
    pub fn has_reloaded(&mut self, locale: &str) -> (r: bool)
        ensures
            reload_step(*old(self), *final(self), locale_canon(locale@), r),
    {
        match locale_parse(locale) {
            None => true,
            Some((_lid, canon)) => {
                let mut i: usize = 0;
                while i < self.watchers.len()
                    invariant
                        locale_canon(locale@) == Some(canon@),
                        i <= self.watchers@.len(),
                        *self == *old(self),
                        forall|j: int| 0 <= j < i ==> self.watchers@[j].locale@ != canon@,
                    decreases self.watchers@.len() - i,
                {
                    if self.watchers[i].locale == canon {
                        proof {
                            lemma_watcher_index_found(self.watchers@, canon@, i as int);
                        }
                        match self.source.version_of(canon.as_str()) {
                            None => {
                                return true;
                            },
                            Some(v) => {
                                let seen = self.watchers[i].seen;
                                let ghost before = self.watchers@;
                                let w2 = LocaleWatcher { locale: canon, seen: v };
                                let ghost gw2 = w2;
                                self.watchers[i] = w2;
                                proof {
                                    lemma_watcher_update(before, i as int, gw2);
                                }
                                return seen != v;
                            },
                        }
                    }
                    i = i + 1;
                }
                proof {
                    lemma_watcher_index(self.watchers@, canon@);
                }
                true
            },
        }
    }

    /// Feeds a freshly built pack into the store, superseding any pack
    /// already resident for that locale and moving its version; watches
    /// and the active locale are untouched.
    pub fn install_pack(&mut self, locale: &str, pack: LanguagePack) -> (r: Result<(), LoadError>)
        ensures
            final(self).watchers@ == old(self).watchers@,
            final(self).first_language == old(self).first_language,
            match locale_canon(locale@) {
                None => r == Err::<(), LoadError>(LoadError::InvalidLocale) && final(self).source.packs@ == old(self).source.packs@,
                Some(c) => {
                    &&& r == Ok::<(), LoadError>(())
                    &&& match entry_of(final(self).source.packs@, c) {
                        Some(e2) => {
                            &&& e2.locale@ == c
                            &&& e2.pack == pack
                            &&& e2.version == match entry_of(old(self).source.packs@, c) {
                                Some(e) => next_version(e.version),
                                None => 0u64,
                            }
                        },
                        None => false,
                    }
                    &&& forall|l: Seq<char>|
                        l != c ==> entry_of(final(self).source.packs@, l) == entry_of(
                            old(self).source.packs@,
                            l,
                        )
                },
            },
    {
        match self.source.insert_pack(locale, pack) {
            Ok(()) => Ok(()),
            Err(_) => Err(LoadError::InvalidLocale),
        }
    }
}

/// The observable effect of one `has_reloaded` call: how the repository
/// after the call and the result relate to the repository before it,
/// given the canonical form of the locale asked about.
pub open spec fn reload_step(
    pre: TextRepository,
    post: TextRepository,
    canon: Option<Seq<char>>,
    r: bool,
) -> bool {
    &&& post.source.packs@ == pre.source.packs@
    &&& post.first_language == pre.first_language
    &&& match canon {
        None => r == true && post.watchers@ == pre.watchers@,
        Some(c) => match watcher_of(pre.watchers@, c) {
            None => r == true && post.watchers@ == pre.watchers@,
            Some(w) => match version_of(pre.source.packs@, c) {
                None => r == true && post.watchers@ == pre.watchers@,
                Some(v) => {
                    &&& r == (w.seen != v)
                    &&& match watcher_of(post.watchers@, c) {
                        Some(w2) => w2.locale@ == c && w2.seen == v,
                        None => false,
                    }
                    &&& forall|l: Seq<char>|
                        l != c ==> watcher_of(post.watchers@, l) == watcher_of(pre.watchers@, l)
                },
            },
        },
    }
}

/// The change signal is edge-triggered: with no content change in
/// between, two consecutive observations of one watched locale report a
/// change at most once — the second always reads false.
pub proof fn lemma_reload_edge_triggered(
    s0: TextRepository,
    s1: TextRepository,
    s2: TextRepository,
    c: Seq<char>,
    r1: bool,
    r2: bool,
)
    requires
        reload_step(s0, s1, Some(c), r1),
        reload_step(s1, s2, Some(c), r2),
        watcher_of(s0.watchers@, c) is Some,
        version_of(s0.source.packs@, c) is Some,
    ensures
        !r2,
{
}

/// A locale with no registered watch always reads as changed.
pub proof fn lemma_reload_unwatched(
    pre: TextRepository,
    post: TextRepository,
    c: Seq<char>,
    r: bool,
)
    requires
        reload_step(pre, post, Some(c), r),
        watcher_of(pre.watchers@, c) is None,
    ensures
        r,
{
}

/// A key absent from the resolved catalog yields the MISSING sentinel,
/// never an error.
pub proof fn lemma_missing_key(
    repo: TextRepository,
    key: Seq<char>,
    args: Seq<(Seq<char>, Seq<char>)>,
)
    requires
        match repo.resolved_entry() {
            Some(e) => !bundle_msgs(e.pack.bundle).contains(key),
            None => true,
        },
    ensures
        repo.message_of(key, args) == missing_line(),
        forall|attr: Seq<char>| repo.attr_of(key, attr, args) == missing_line(),
{
}

/// No silent fallback across locales: once the active locale is loaded,
/// resolution uses its catalog alone, so a key that catalog lacks yields
/// MISSING even when another resident catalog defines it.
pub proof fn lemma_no_cross_locale_fallback(
    repo: TextRepository,
    key: Seq<char>,
    args: Seq<(Seq<char>, Seq<char>)>,
)
    requires
        repo.is_loaded(repo.first_language@),
        match entry_of(repo.source.packs@, repo.first_language@) {
            Some(e) => !bundle_msgs(e.pack.bundle).contains(key),
            None => true,
        },
    ensures
        repo.message_of(key, args) == missing_line(),
{
}

/// When the active locale was never loaded, resolution uses the default
/// locale's catalog.
pub proof fn lemma_default_when_not_loaded(repo: TextRepository)
    requires
        !repo.is_loaded(repo.first_language@),
    ensures
        repo.resolved_locale() == default_locale(),
{
}

} // verus!
