//! Language packs and their data source.
//!
//! A language pack is one locale's message catalog plus font metadata,
//! built from a manifest and a set of FTL source texts. Packs are
//! immutable once built; on a content change a fresh pack supersedes the
//! old one in the data source, which bumps that locale's version so that
//! reload watchers can notice.

use crate::fluent::{
    bundle_add_resource, bundle_entries, bundle_msgs, bundle_new, ftl_entries, ftl_msgs,
    locale_canon, locale_parse, resource_entries, resource_msgs, resource_try_new, Catalog,
};
use vstd::prelude::*;
use vstd::string::StringExecFns;

verus! {

/// The location of a font file.
#[derive(Debug, Clone, PartialEq, Eq)]
pub struct Font {
    pub location: String,
}

/// The fonts a set of translations uses, keyed by logical role (at least
/// sans-serif and serif are usual).
pub type Fonts = Vec<(String, Font)>;

/// Language-pack level metadata: the fonts and the locale identifier. It
/// mirrors the manifest file shape, so its fields are public and plain.
#[derive(Debug, Clone, PartialEq, Eq)]
pub struct LanguageManifest {
    pub fonts: Fonts,
    pub language: String,
}

/// One locale's message catalog plus font metadata. Immutable once built.
pub struct LanguagePack {
    pub locale: String,
    pub bundle: Catalog,
    pub fonts: Fonts,
}

/// Why a language pack could not be built.
#[derive(Debug, Clone, Copy, PartialEq, Eq)]
pub enum PackError {
    /// The locale identifier does not parse.
    InvalidLocale,
    /// The FTL source at this index does not parse.
    BadResource { index: usize },
}

/// The message ids an FTL source defines, reading an unparsable source as
/// defining none.
pub open spec fn ftl_msgs_of(s: Seq<char>) -> Set<Seq<char>> {
    match ftl_msgs(s) {
        Some(m) => m,
        None => Set::empty(),
    }
}

/// The message ids the first `upto` FTL sources define, together.
pub open spec fn ftl_union(sources: Seq<String>, upto: int) -> Set<Seq<char>>
    decreases upto,
{
    if upto <= 0 {
        Set::empty()
    } else {
        ftl_union(sources, upto - 1).union(ftl_msgs_of(sources[upto - 1]@))
    }
}

/// The entry ids (messages and terms) an FTL source defines, reading an
/// unparsable source as defining none.
pub open spec fn ftl_entries_of(s: Seq<char>) -> Set<Seq<char>> {
    match ftl_entries(s) {
        Some(m) => m,
        None => Set::empty(),
    }
}

/// The entry ids the first `upto` FTL sources define, together.
pub open spec fn ftl_entries_union(sources: Seq<String>, upto: int) -> Set<Seq<char>>
    decreases upto,
{
    if upto <= 0 {
        Set::empty()
    } else {
        ftl_entries_union(sources, upto - 1).union(ftl_entries_of(sources[upto - 1]@))
    }
}

impl LanguagePack {
    /// Builds the pack for locale `id` from the manifest and the FTL
    /// sources, aggregating them into one catalog. Succeeds exactly when
    /// the locale identifier and every source parse; an id defined twice
    /// keeps its first definition. The catalog holds no message beyond
    /// what the sources define, and holds every message whose id no
    /// earlier source had already taken.
    pub fn load(id: &str, manifest: LanguageManifest, sources: Vec<String>) -> (r: Result<
        LanguagePack,
        PackError,
    >)
        ensures
            match r {
                Ok(p) => {
                    &&& locale_canon(id@) == Some(p.locale@)
                    &&& forall|j: int|
                        0 <= j < sources@.len() ==> ftl_msgs(sources@[j]@) is Some
                    &&& p.fonts == manifest.fonts
                    &&& bundle_msgs(p.bundle).subset_of(
                        ftl_union(sources@, sources@.len() as int),
                    )
                    &&& bundle_entries(p.bundle) == ftl_entries_union(
                        sources@,
                        sources@.len() as int,
                    )
                    &&& forall|j: int, k: Seq<char>|
                        0 <= j < sources@.len() && #[trigger] ftl_msgs_of(
                            sources@[j]@,
                        ).contains(k) && !ftl_entries_union(sources@, j).contains(k)
                            ==> bundle_msgs(p.bundle).contains(k)
                },
                Err(PackError::InvalidLocale) => locale_canon(id@) is None,
                Err(PackError::BadResource { index }) => {
                    &&& locale_canon(id@) is Some
                    &&& index < sources@.len()
                    &&& ftl_msgs(sources@[index as int]@) is None
                    &&& forall|j: int| 0 <= j < index ==> ftl_msgs(sources@[j]@) is Some
                },
            },
    {
        match locale_parse(id) {
            None => Err(PackError::InvalidLocale),
            Some((lid, canon)) => {
                let mut bundle = bundle_new(lid);
                let mut i: usize = 0;
                while i < sources.len()
                    invariant
                        locale_canon(id@) == Some(canon@),
                        i <= sources@.len(),
                        forall|j: int| 0 <= j < i ==> ftl_msgs(sources@[j]@) is Some,
                        bundle_msgs(bundle).subset_of(ftl_union(sources@, i as int)),
                        bundle_entries(bundle) == ftl_entries_union(sources@, i as int),
                        forall|j: int, k: Seq<char>|
                            0 <= j < i && #[trigger] ftl_msgs_of(sources@[j]@).contains(k)
                                && !ftl_entries_union(sources@, j).contains(k) ==> bundle_msgs(
                                bundle,
                            ).contains(k),
                    decreases sources@.len() - i,
                {
                    let src = sources[i].clone();
                    match resource_try_new(src) {
                        Some(res) => {
                            let ghost before = bundle;
                            proof {
                                assert(resource_msgs(res) == ftl_msgs_of(sources@[i as int]@));
                                assert(resource_entries(res) == ftl_entries_of(
                                    sources@[i as int]@,
                                ));
                            }
                            bundle_add_resource(&mut bundle, res);
                            proof {
                                assert(ftl_union(sources@, i as int).union(
                                    ftl_msgs_of(sources@[i as int]@),
                                ) == ftl_union(sources@, i as int + 1));
                                assert(ftl_entries_union(sources@, i as int).union(
                                    ftl_entries_of(sources@[i as int]@),
                                ) == ftl_entries_union(sources@, i as int + 1));
                                assert forall|j: int, k: Seq<char>|
                                    0 <= j < i + 1 && #[trigger] ftl_msgs_of(
                                        sources@[j]@,
                                    ).contains(k) && !ftl_entries_union(sources@, j).contains(k)
                                        implies bundle_msgs(bundle).contains(k) by {
                                    if j < i {
                                        assert(bundle_msgs(before).contains(k));
                                    } else {
                                        assert(!bundle_entries(before).contains(k));
                                    }
                                }
                            }
                        },
                        None => {
                            return Err(PackError::BadResource { index: i });
                        },
                    }
                    i = i + 1;
                }
                Ok(LanguagePack { locale: canon, bundle, fonts: manifest.fonts })
            },
        }
    }
}

/// One resident pack in the data source, with the version counter that
/// reload watchers compare against. The counter moves when the pack is
/// superseded.
pub struct PackEntry {
    pub locale: String,
    pub version: u64,
    pub pack: LanguagePack,
}

/// First entry for `loc` in the pack list, newest first.
pub open spec fn entry_index(entries: Seq<PackEntry>, loc: Seq<char>) -> Option<int>
    decreases entries.len(),
{
    if entries.len() == 0 {
        None
    } else if entries[0].locale@ == loc {
        Some(0)
    } else {
        match entry_index(entries.skip(1), loc) {
            Some(i) => Some(i + 1),
            None => None,
        }
    }
}

/// The resident pack entry for `loc`, if any.
pub open spec fn entry_of(entries: Seq<PackEntry>, loc: Seq<char>) -> Option<PackEntry> {
    match entry_index(entries, loc) {
        Some(i) => Some(entries[i]),
        None => None,
    }
}

/// The version the store holds for `loc`, if it holds a pack at all.
pub open spec fn version_of(entries: Seq<PackEntry>, loc: Seq<char>) -> Option<u64> {
    match entry_of(entries, loc) {
        Some(e) => Some(e.version),
        None => None,
    }
}

/// The index `entry_index` returns is the first matching one, in range.
proof fn lemma_entry_index(entries: Seq<PackEntry>, loc: Seq<char>)
    ensures
        entry_index(entries, loc) matches Some(i) ==> 0 <= i < entries.len()
            && entries[i].locale@ == loc && (forall|j: int|
            0 <= j < i ==> entries[j].locale@ != loc),
        entry_index(entries, loc) is None ==> forall|j: int|
            0 <= j < entries.len() ==> entries[j].locale@ != loc,
    decreases entries.len(),
{
    if entries.len() != 0 && entries[0].locale@ != loc {
        lemma_entry_index(entries.skip(1), loc);
        if let Some(i) = entry_index(entries.skip(1), loc) {
            assert forall|j: int| 0 <= j < i + 1 implies entries[j].locale@ != loc by {
                if j > 0 {
                    assert(entries.skip(1)[j - 1] == entries[j]);
                }
            }
        } else {
            assert forall|j: int| 0 <= j < entries.len() implies entries[j].locale@ != loc by {
                if j > 0 {
                    assert(entries.skip(1)[j - 1] == entries[j]);
                }
            }
        }
    }
}

/// Keyed store of language packs. The surrounding program builds packs
/// from asset files and feeds them in; a pack fed in again under the same
/// locale supersedes the old one and moves that locale's version.
pub struct LanguageFileDataSource {
    pub packs: Vec<PackEntry>,
}

impl Default for LanguageFileDataSource {
    /// An empty store.
    fn default() -> (r: LanguageFileDataSource)
        ensures
            r.packs@.len() == 0,
    {
        LanguageFileDataSource::new()
    }
}

impl LanguageFileDataSource {
    pub fn new() -> (r: LanguageFileDataSource)
        ensures
            r.packs@.len() == 0,
    {
        LanguageFileDataSource { packs: Vec::new() }
    }

    /// The resident pack for the canonical locale `loc`, if any.
    pub fn get_language_pack(&self, loc: &str) -> (r: Option<&LanguagePack>)
        ensures
            match r {
                Some(p) => entry_of(self.packs@, loc@) matches Some(e) && e.pack == *p,
                None => entry_of(self.packs@, loc@) is None,
            },
    {
        proof {
            lemma_entry_index(self.packs@, loc@);
        }
        let key = String::from_str(loc);
        let mut i: usize = 0;
        while i < self.packs.len()
            invariant
                key@ == loc@,
                i <= self.packs@.len(),
                forall|j: int| 0 <= j < i ==> self.packs@[j].locale@ != loc@,
            decreases self.packs@.len() - i,
        {
            let entry = &self.packs[i];
            if entry.locale == key {
                proof {
                    lemma_entry_index_found(self.packs@, loc@, i as int);
                }
                return Some(&entry.pack);
            }
            i = i + 1;
        }
        None
    }

    /// Feeds a freshly built pack in under locale `loc`: a pack already
    /// resident for that locale is superseded and the locale's version
    /// moves; a new locale starts at version zero. Other locales' packs
    /// and versions are untouched.
    pub fn insert_pack(&mut self, loc: &str, pack: LanguagePack) -> (r: Result<(), PackError>)
        ensures
            match locale_canon(loc@) {
                None => r == Err::<(), PackError>(PackError::InvalidLocale) && final(self).packs@
                    == old(self).packs@,
                Some(c) => r == Ok::<(), PackError>(()) && (match entry_of(final(self).packs@, c) {
                    Some(e2) => {
                        &&& e2.locale@ == c
                        &&& e2.pack == pack
                        &&& e2.version == match entry_of(old(self).packs@, c) {
                            Some(e) => next_version(e.version),
                            None => 0u64,
                        }
                    },
                    None => false,
                }) && (forall|l: Seq<char>|
                    l != c ==> entry_of(final(self).packs@, l) == entry_of(old(self).packs@, l)),
            },
    {
        match locale_parse(loc) {
            None => Err(PackError::InvalidLocale),
            Some((_lid, canon)) => {
                let mut i: usize = 0;
                while i < self.packs.len()
                    invariant
                        locale_canon(loc@) == Some(canon@),
                        i <= self.packs@.len(),
                        self.packs@ == old(self).packs@,
                        forall|j: int| 0 <= j < i ==> self.packs@[j].locale@ != canon@,
                    decreases self.packs@.len() - i,
                {
                    if self.packs[i].locale == canon {
                        let v = self.packs[i].version;
                        let v2 = if v < u64::MAX {
                            v + 1
                        } else {
                            v
                        };
                        let ghost before = self.packs@;
                        let e2 = PackEntry { locale: canon, version: v2, pack };
                        let ghost ge2 = e2;
                        self.packs[i] = e2;
                        proof {
                            lemma_entry_index_found(before, ge2.locale@, i as int);
                            lemma_entry_update(before, i as int, ge2);
                        }
                        return Ok(());
                    }
                    i = i + 1;
                }
                proof {
                    lemma_entry_index(self.packs@, canon@);
                }
                let e2 = PackEntry { locale: canon, version: 0, pack };
                let ghost ge2 = e2;
                let ghost before = self.packs@;
                self.packs.insert(0, e2);
                proof {
                    lemma_entry_insert_front(before, ge2);
                }
                Ok(())
            },
        }
    }

    /// The version the store holds for the canonical locale `loc`.
    pub fn version_of(&self, loc: &str) -> (r: Option<u64>)
        ensures
            r == version_of(self.packs@, loc@),
    {
        proof {
            lemma_entry_index(self.packs@, loc@);
        }
        let key = String::from_str(loc);
        let mut i: usize = 0;
        while i < self.packs.len()
            invariant
                key@ == loc@,
                i <= self.packs@.len(),
                forall|j: int| 0 <= j < i ==> self.packs@[j].locale@ != loc@,
            decreases self.packs@.len() - i,
        {
            let entry = &self.packs[i];
            if entry.locale == key {
                proof {
                    lemma_entry_index_found(self.packs@, loc@, i as int);
                }
                return Some(entry.version);
            }
            i = i + 1;
        }
        None
    }
}

/// The version after a pack is superseded; the counter holds at its
/// ceiling rather than wrapping.
pub open spec fn next_version(v: u64) -> u64 {
    if v == u64::MAX {
        v
    } else {
        (v + 1) as u64
    }
}

/// Replacing the first entry for a locale changes that locale's lookup
/// and no other.
proof fn lemma_entry_update(entries: Seq<PackEntry>, i: int, e2: PackEntry)
    requires
        0 <= i < entries.len(),
        entries[i].locale@ == e2.locale@,
        forall|j: int| 0 <= j < i ==> entries[j].locale@ != e2.locale@,
    ensures
        entry_of(entries.update(i, e2), e2.locale@) == Some(e2),
        forall|l: Seq<char>|
            l != e2.locale@ ==> entry_of(entries.update(i, e2), l) == entry_of(entries, l),
{
    let u = entries.update(i, e2);
    lemma_entry_index_found(u, e2.locale@, i);
    assert forall|l: Seq<char>| l != e2.locale@ implies entry_of(u, l) == entry_of(entries, l) by {
        lemma_entry_index_update_other(entries, i, e2, l);
        lemma_entry_index(entries, l);
        lemma_entry_index(u, l);
    }
}

/// Lookup of any other locale does not see an update.
proof fn lemma_entry_index_update_other(entries: Seq<PackEntry>, i: int, e2: PackEntry, l: Seq<char>)
    requires
        0 <= i < entries.len(),
        entries[i].locale@ == e2.locale@,
        l != e2.locale@,
    ensures
        entry_index(entries.update(i, e2), l) == entry_index(entries, l),
    decreases entries.len(),
{
    let u = entries.update(i, e2);
    if i == 0 {
        assert(u.skip(1) =~= entries.skip(1));
    } else {
        assert(u[0] == entries[0]);
        if entries[0].locale@ != l {
            assert(u.skip(1) =~= entries.skip(1).update(i - 1, e2));
            lemma_entry_index_update_other(entries.skip(1), i - 1, e2, l);
        }
    }
}

/// Putting a fresh entry at the front changes that locale's lookup and
/// no other.
proof fn lemma_entry_insert_front(entries: Seq<PackEntry>, e2: PackEntry)
    ensures
        entry_of(entries.insert(0, e2), e2.locale@) == Some(e2),
        forall|l: Seq<char>|
            l != e2.locale@ ==> entry_of(entries.insert(0, e2), l) == entry_of(entries, l),
{
    let u = entries.insert(0, e2);
    assert(u[0] == e2);
    assert(u.skip(1) =~= entries);
    assert forall|l: Seq<char>| l != e2.locale@ implies entry_of(u, l) == entry_of(entries, l) by {
        lemma_entry_index(entries, l);
        if let Some(i) = entry_index(entries, l) {
            assert(u[i + 1] == entries[i]);
        }
    }
}

/// If `i` is the first index whose entry is for `loc`, then lookup finds
/// exactly that entry.
proof fn lemma_entry_index_found(entries: Seq<PackEntry>, loc: Seq<char>, i: int)
    requires
        0 <= i < entries.len(),
        entries[i].locale@ == loc,
        forall|j: int| 0 <= j < i ==> entries[j].locale@ != loc,
    ensures
        entry_index(entries, loc) == Some(i),
    decreases entries.len(),
{
    if i > 0 {
        assert forall|j: int| 0 <= j < i - 1 implies entries.skip(1)[j].locale@ != loc by {
            assert(entries.skip(1)[j] == entries[j + 1]);
        }
        assert(entries.skip(1)[i - 1] == entries[i]);
        lemma_entry_index_found(entries.skip(1), loc, i - 1);
    }
}

} // verus!
