//! The project scope: a GUID index built once from the sidecar files found
//! under a root directory, and lookups over it.
//!
//! The scope itself never reads a disk. The caller walks the tree, reads
//! each eligible sidecar file, and hands `init` the list of (path, content)
//! pairs in traversal order; everything from there on is plain computation.
use vstd::prelude::*;
use vstd::string::*;

use crate::assoc;
use crate::data::AssetKind;
use crate::data::UnityAssetReference;
use crate::strutil;
use crate::ScopeError;

verus! {

/// Which file extensions are eligible for indexing.
#[derive(Debug, Clone)]
pub struct ScanConfig {
    /// File extensions to only search for, comma separated.
    pub extension_filter: String,
}

impl Default for ScanConfig {
    /// The default allow-list.
    fn default() -> (r: ScanConfig)
        ensures
            r.extension_filter@ == "png,jpg,hdr,asset,mat"@,
    {
        ScanConfig { extension_filter: "png,jpg,hdr,asset,mat".to_owned() }
    }
}

/// A path is scanned when its last `.`-separated part is the metadata
/// suffix `meta` and the part before that is in the comma-separated
/// allow-list.
pub open spec fn is_candidate(path: Seq<char>, filter: Seq<char>) -> bool {
    let parts = strutil::spec_split(path, '.');
    &&& parts.len() >= 2
    &&& parts.last() == "meta"@
    &&& strutil::spec_split(filter, ',').contains(parts[parts.len() - 2])
}

/// `p` ends with the metadata suffix.
pub open spec fn ends_with_meta(p: Seq<char>) -> bool {
    p.len() >= 5 && p.skip(p.len() - 5) == ".meta"@
}

/// A scanned path carries the metadata suffix at its end.
pub proof fn lemma_candidate_ends_meta(path: Seq<char>, filter: Seq<char>)
    requires
        is_candidate(path, filter),
    ensures
        ends_with_meta(path),
{
    strutil::lemma_split_last_suffix(path, '.');
    let parts = strutil::spec_split(path, '.');
    reveal_strlit("meta");
    reveal_strlit(".meta");
    assert(parts.last().len() == 4);
    assert(seq!['.'] + "meta"@ =~= ".meta"@);
    assert(path.skip(path.len() - 5) == ".meta"@);
}

/// Whether some element of `v` reads as `x`.
fn contains_string(v: &Vec<String>, x: &String) -> (r: bool)
    ensures
        r == exists|j: int| 0 <= j < v@.len() && v@[j]@ == x@,
{
    let n = v.len();
    let mut i: usize = 0;
    while i < n
        invariant
            i <= n,
            n == v@.len(),
            forall|j: int| 0 <= j < i ==> v@[j]@ != x@,
        decreases n - i,
    {
        if v[i] == *x {
            assert(v@[i as int]@ == x@);
            return true;
        }
        i = i + 1;
    }
    false
}

/// Decides whether a path names an eligible sidecar file.
pub fn wants_scan(path: &str, cfg: &ScanConfig) -> (r: bool)
    ensures
        r == is_candidate(path@, cfg.extension_filter@),
{
    let ghost sp = strutil::spec_split(path@, '.');
    let ghost spec_exts = strutil::spec_split(cfg.extension_filter@, ',');
    let parts = strutil::split_str(path, '.');
    if parts.len() < 2 {
        return false;
    }
    let meta: String = "meta".to_owned();
    let last = &parts[parts.len() - 1];
    proof {
        assert(parts@[parts@.len() - 1]@ == sp[sp.len() - 1]);
        assert(parts@[parts@.len() - 2]@ == sp[sp.len() - 2]);
    }
    if !(*last == meta) {
        assert(sp.last() != "meta"@);
        return false;
    }
    let target = &parts[parts.len() - 2];
    let exts = strutil::split_str(cfg.extension_filter.as_str(), ',');
    let found = contains_string(&exts, target);
    proof {
        if found {
            let j = choose|j: int| 0 <= j < exts@.len() && exts@[j]@ == target@;
            assert(spec_exts[j] == target@);
            assert(spec_exts.contains(sp[sp.len() - 2]));
        } else {
            if spec_exts.contains(sp[sp.len() - 2]) {
                let j = choose|j: int| 0 <= j < spec_exts.len() && spec_exts[j] == target@;
                assert(exts@[j]@ == target@);
            }
        }
    }
    found
}

/// What parsing a sidecar document yields: its format version and GUID, or
/// nothing when the text is not a YAML mapping carrying an unsigned
/// `fileFormatVersion` that fits a byte and a string `guid`. YAML parsing
/// is deterministic, so this is a function of the text alone.
pub uninterp spec fn sidecar_fields(s: Seq<char>) -> Option<(u8, Seq<char>)>;

/// Relies on serde_yaml_ng::from_str and the Value accessors get, as_u64
/// and as_str: parses one sidecar document and extracts its
/// `fileFormatVersion` and `guid` fields, failing on any text in which they
/// are missing or ill-typed.
#[verifier::external_body]
fn parse_sidecar(s: &str) -> (r: Result<(u8, String), serde_yaml_ng::Error>)
    ensures
        match r {
            Ok(f) => sidecar_fields(s@) == Some((f.0, f.1@)),
            Err(_) => sidecar_fields(s@) is None,
        },
{
    let doc: serde_yaml_ng::Value = serde_yaml_ng::from_str(s)?;
    let ver = doc.get("fileFormatVersion").and_then(|v| v.as_u64());
    let guid = doc.get("guid").and_then(|v| v.as_str());
    match (ver.and_then(|v| u8::try_from(v).ok()), guid) {
        (Some(v), Some(g)) => Ok((v, g.to_string())),
        _ => Err(<serde_yaml_ng::Error as serde::de::Error>::custom(
            "missing or ill-typed sidecar fields",
        )),
    }
}

/// Overwrites the value of the first pair keyed `k` in place, or appends
/// `(k, v)` when no pair is.
fn assoc_upsert(files: &mut Vec<(String, String)>, k: String, v: String)
    ensures
        entry_views(final(files)@) == assoc::upsert(entry_views(old(files)@), k@, v@),
{
    let ghost pre = entry_views(old(files)@);
    proof {
        assoc::lemma_upsert_effect(pre, k@, v@);
        if assoc::has_key(pre, k@) {
            assoc::lemma_first_key_index(pre, k@);
        }
    }
    let n = files.len();
    let mut i: usize = 0;
    while i < n
        invariant
            i <= n,
            n == files@.len(),
            files@ == old(files)@,
            pre == entry_views(old(files)@),
            forall|j: int| 0 <= j < i ==> pre[j].0 != k@,
        decreases n - i,
    {
        let entry = &files[i];
        if entry.0 == k {
            proof {
                assert(pre[i as int].0 == k@);
                assoc::lemma_upsert_effect(pre, k@, v@);
                let f = assoc::first_key_index(pre, k@);
                assoc::lemma_first_key_index(pre, k@);
                assert(f == i as int) by {
                    if f < i as int {
                        assert(pre[f].0 == k@);
                    }
                }
                assert(assoc::upsert(pre, k@, v@) == pre.update(i as int, (k@, v@)));
            }
            files[i] = (k, v);
            proof {
                assert(entry_views(files@) =~= pre.update(i as int, (k@, v@)));
            }
            return ;
        }
        i = i + 1;
    }
    files.push((k, v));
    proof {
        assert(pre.len() == n);
        assert(!assoc::has_key(pre, k@));
        assert(assoc::upsert(pre, k@, v@) == pre.push((k@, v@)));
        assert(entry_views(files@) =~= pre.push((k@, v@)));
    }
}

/// The views of a list of string pairs.
pub open spec fn entry_views(v: Seq<(String, String)>) -> Seq<(Seq<char>, Seq<char>)> {
    Seq::new(v.len(), |i: int| (v[i].0@, v[i].1@))
}

/// The outcome the scan model assigns to a list of (path, content) pairs.
pub enum ScanOutcome {
    /// Every eligible sidecar parsed and declared version 2: the index, as
    /// (GUID, sidecar path) pairs in scan order, later duplicates
    /// overwriting earlier ones in place.
    Index(Seq<(Seq<char>, Seq<char>)>),
    /// The first failing sidecar did not parse.
    Malformed,
    /// The first failing sidecar declared this unsupported format version.
    BadVersion(u8),
}

/// The scan model: fold the entries in order into an index, aborting at the
/// first eligible sidecar that fails to parse or declares a version other
/// than 2.
pub open spec fn scan(
    acc: Seq<(Seq<char>, Seq<char>)>,
    entries: Seq<(Seq<char>, Seq<char>)>,
    filter: Seq<char>,
) -> ScanOutcome
    decreases entries.len(),
{
    if entries.len() == 0 {
        ScanOutcome::Index(acc)
    } else if !is_candidate(entries.first().0, filter) {
        scan(acc, entries.drop_first(), filter)
    } else {
        match sidecar_fields(entries.first().1) {
            Option::None => ScanOutcome::Malformed,
            Option::Some(f) => if f.0 != 2 {
                ScanOutcome::BadVersion(f.0)
            } else {
                scan(assoc::upsert(acc, f.1, entries.first().0), entries.drop_first(), filter)
            },
        }
    }
}

/// How many of the entries are eligible sidecars.
pub open spec fn candidate_count(
    entries: Seq<(Seq<char>, Seq<char>)>,
    filter: Seq<char>,
) -> int
    decreases entries.len(),
{
    if entries.len() == 0 {
        0
    } else {
        (if is_candidate(entries.first().0, filter) {
            1int
        } else {
            0int
        }) + candidate_count(entries.drop_first(), filter)
    }
}

/// An entry whose content parses as a sidecar with format version 2.
pub open spec fn parses_version_two(e: (Seq<char>, Seq<char>)) -> bool {
    match sidecar_fields(e.1) {
        Some(f) => f.0 == 2,
        None => false,
    }
}

/// The GUID an entry's content declares.
pub open spec fn guid_of(e: (Seq<char>, Seq<char>)) -> Seq<char> {
    match sidecar_fields(e.1) {
        Some(f) => f.1,
        None => Seq::empty(),
    }
}

/// Law: when every eligible sidecar parses with format version 2 and the
/// eligible sidecars declare pairwise distinct GUIDs, none already in
/// `acc`, the scan succeeds and the index gains exactly one entry per
/// eligible sidecar — files with disallowed extensions contribute nothing.
pub proof fn lemma_scan_size(
    acc: Seq<(Seq<char>, Seq<char>)>,
    entries: Seq<(Seq<char>, Seq<char>)>,
    filter: Seq<char>,
)
    requires
        forall|i: int|
            0 <= i < entries.len() && is_candidate((#[trigger] entries[i]).0, filter)
                ==> parses_version_two(entries[i]),
        forall|i: int, j: int|
            #![trigger entries[i], entries[j]]
            0 <= i < j < entries.len() && is_candidate(entries[i].0, filter) && is_candidate(
                entries[j].0,
                filter,
            ) ==> guid_of(entries[i]) != guid_of(entries[j]),
        forall|i: int|
            0 <= i < entries.len() && is_candidate((#[trigger] entries[i]).0, filter)
                ==> !assoc::has_key(acc, guid_of(entries[i])),
    ensures
        ({
            let r = scan(acc, entries, filter);
            r matches ScanOutcome::Index(m) && m.len() == acc.len() + candidate_count(
                entries,
                filter,
            )
        }),
    decreases entries.len(),
{
    if entries.len() > 0 {
        let e0 = entries.first();
        let rest = entries.drop_first();
        assert(forall|i: int| 0 <= i < rest.len() ==> rest[i] == entries[i + 1]);
        if !is_candidate(e0.0, filter) {
            lemma_scan_size(acc, rest, filter);
        } else {
            assert(e0 == entries[0]);
            assert(parses_version_two(e0));
            let g = guid_of(e0);
            let acc2 = assoc::upsert(acc, g, e0.0);
            assoc::lemma_upsert_effect(acc, g, e0.0);
            assert(!assoc::has_key(acc, g));
            assert(acc2 == acc.push((g, e0.0)));
            assert forall|i: int|
                0 <= i < rest.len() && is_candidate((#[trigger] rest[i]).0, filter)
                    implies !assoc::has_key(acc2, guid_of(rest[i])) by {
                assert(rest[i] == entries[i + 1]);
                if assoc::has_key(acc2, guid_of(rest[i])) {
                    let w = choose|w: int|
                        0 <= w < acc2.len() && acc2[w].0 == guid_of(rest[i]);
                    if w < acc.len() {
                        assert(acc[w].0 == guid_of(rest[i]));
                        assert(assoc::has_key(acc, guid_of(entries[i + 1])));
                    } else {
                        assert(acc2[w] == (g, e0.0));
                        assert(guid_of(entries[0]) == guid_of(entries[i + 1]));
                    }
                }
            }
            lemma_scan_size(acc2, rest, filter);
        }
    }
}

/// Law: when every eligible sidecar parses and some eligible sidecar
/// declares a format version other than 2, the scan aborts with an
/// unsupported-version outcome carrying a version some eligible sidecar
/// declared — no index is produced. (With an unparsable eligible sidecar
/// earlier in the list, the scan aborts with the parse failure first;
/// the first hypothesis leaves those lists out.)
pub proof fn lemma_scan_bad_version(
    acc: Seq<(Seq<char>, Seq<char>)>,
    entries: Seq<(Seq<char>, Seq<char>)>,
    filter: Seq<char>,
)
    requires
        forall|i: int|
            0 <= i < entries.len() && is_candidate((#[trigger] entries[i]).0, filter)
                ==> sidecar_fields(entries[i].1) is Some,
        exists|i: int|
            0 <= i < entries.len() && is_candidate((#[trigger] entries[i]).0, filter)
                && !parses_version_two(entries[i]),
    ensures
        ({
            let r = scan(acc, entries, filter);
            r matches ScanOutcome::BadVersion(v) && v != 2 && exists|i: int|
                0 <= i < entries.len() && is_candidate((#[trigger] entries[i]).0, filter)
                    && sidecar_fields(entries[i].1) == Some((v, guid_of(entries[i])))
        }),
    decreases entries.len(),
{
    let e0 = entries.first();
    let rest = entries.drop_first();
    assert(forall|i: int| 0 <= i < rest.len() ==> rest[i] == entries[i + 1]);
    let w = choose|i: int|
        0 <= i < entries.len() && is_candidate((#[trigger] entries[i]).0, filter)
            && !parses_version_two(entries[i]);
    if !is_candidate(e0.0, filter) {
        assert(w >= 1);
        assert(rest[w - 1] == entries[w]);
        lemma_scan_bad_version(acc, rest, filter);
        let r = scan(acc, entries, filter);
        let v = choose|i: int|
            0 <= i < rest.len() && is_candidate((#[trigger] rest[i]).0, filter)
                && sidecar_fields(rest[i].1) == Some((r->BadVersion_0, guid_of(rest[i])));
        assert(entries[v + 1] == rest[v]);
    } else {
        assert(e0 == entries[0]);
        assert(sidecar_fields(e0.1) is Some);
        let f = sidecar_fields(e0.1)->Some_0;
        if f.0 != 2 {
            assert(scan(acc, entries, filter) == ScanOutcome::BadVersion(f.0));
            assert(sidecar_fields(entries[0].1) == Some((f.0, guid_of(entries[0]))));
        } else {
            assert(parses_version_two(e0));
            assert(w >= 1);
            assert(rest[w - 1] == entries[w]);
            let acc2 = assoc::upsert(acc, f.1, e0.0);
            lemma_scan_bad_version(acc2, rest, filter);
            let r = scan(acc, entries, filter);
            let v = choose|i: int|
                0 <= i < rest.len() && is_candidate((#[trigger] rest[i]).0, filter)
                    && sidecar_fields(rest[i].1) == Some((r->BadVersion_0, guid_of(rest[i])));
            assert(entries[v + 1] == rest[v]);
        }
    }
}

/// A scope built once per session: the root directory it was scanned from,
/// the GUID index in scan order, and the scan configuration.
#[derive(Debug, Clone)]
pub struct ProjectScope {
    base_dir: String,
    /// The index: (GUID, sidecar path) pairs in scan order, GUIDs unique.
    pub files: Vec<(String, String)>,
    scan_config: ScanConfig,
}

impl ProjectScope {
    /// The index as ordered (GUID, sidecar path) pairs.
    pub closed spec fn entries(self) -> Seq<(Seq<char>, Seq<char>)> {
        entry_views(self.files@)
    }

    /// The root directory the scope was built from.
    pub closed spec fn base_dir_view(self) -> Seq<char> {
        self.base_dir@
    }

    /// The allow-list the scope was built with.
    pub closed spec fn config_view(self) -> Seq<char> {
        self.scan_config.extension_filter@
    }

    /// Well-formed: GUIDs are unique and every stored path ends with the
    /// metadata suffix.
    pub open spec fn wf(self) -> bool {
        &&& assoc::unique_keys(self.entries())
        &&& forall|i: int| 0 <= i < self.entries().len() ==> ends_with_meta(
            (#[trigger] self.entries()[i]).1,
        )
    }

    /// How many assets the index holds.
    pub fn size(&self) -> (n: usize)
        ensures
            n == self.entries().len(),
    {
        self.files.len()
    }

    /// Builds the index from the sidecar files found under `source`, handed
    /// over as (path, content) pairs in traversal order. Ineligible paths
    /// are skipped; an eligible sidecar that does not parse aborts the
    /// build, and one that declares a format version other than 2 aborts it
    /// with that version; nothing partial is returned.
    pub fn init(source: String, cfg: ScanConfig, sidecars: Vec<(String, String)>) -> (r: Result<
        ProjectScope,
        ScopeError,
    >)
        ensures
            match r {
                Ok(ps) => {
                    &&& scan(Seq::empty(), entry_views(sidecars@), cfg.extension_filter@)
                        == ScanOutcome::Index(ps.entries())
                    &&& ps.wf()
                    &&& ps.base_dir_view() == source@
                    &&& ps.config_view() == cfg.extension_filter@
                },
                Err(e) => match scan(Seq::empty(), entry_views(sidecars@), cfg.extension_filter@) {
                    ScanOutcome::Index(_) => false,
                    ScanOutcome::Malformed => e is YamlError,
                    ScanOutcome::BadVersion(v) => e matches ScopeError::InvalidFormat(w) && w == v,
                },
            },
    {
        let ghost all = entry_views(sidecars@);
        let ghost filter = cfg.extension_filter@;
        let mut files: Vec<(String, String)> = Vec::new();
        let mut idx: usize = 0;
        proof {
            assert(entry_views(files@) =~= Seq::<(Seq<char>, Seq<char>)>::empty());
            assert(all.skip(0) =~= all);
        }
        while idx < sidecars.len()
            invariant
                idx <= sidecars@.len(),
                all == entry_views(sidecars@),
                filter == cfg.extension_filter@,
                scan(Seq::empty(), all, filter) == scan(
                    entry_views(files@),
                    all.skip(idx as int),
                    filter,
                ),
                assoc::unique_keys(entry_views(files@)),
                forall|i: int| 0 <= i < files@.len() ==> ends_with_meta(
                    (#[trigger] entry_views(files@)[i]).1,
                ),
            decreases sidecars@.len() - idx,
        {
            let ghost pre = entry_views(files@);
            let ghost rem = all.skip(idx as int);
            proof {
                assert(rem.first() == all[idx as int]);
                assert(rem.drop_first() =~= all.skip(idx as int + 1));
            }
            let entry = &sidecars[idx];
            proof {
                assert(rem.first() == (sidecars@[idx as int].0@, sidecars@[idx as int].1@));
            }
            if wants_scan(entry.0.as_str(), &cfg) {
                proof {
                    assert(is_candidate(rem.first().0, filter));
                }
                match parse_sidecar(entry.1.as_str()) {
                    Result::Err(e) => {
                        proof {
                            assert(sidecar_fields(rem.first().1) is None);
                            assert(scan(pre, rem, filter) == ScanOutcome::Malformed);
                        }
                        return Err(ScopeError::YamlError(e));
                    },
                    Result::Ok(parsed) => {
                        let (ver, guid) = parsed;
                        proof {
                            assert(sidecar_fields(rem.first().1) == Some((ver, guid@)));
                        }
                        if ver != 2 {
                            proof {
                                assert(scan(pre, rem, filter) == ScanOutcome::BadVersion(ver));
                            }
                            return Err(ScopeError::InvalidFormat(ver));
                        }
                        let path = entry.0.clone();
                        proof {
                            lemma_candidate_ends_meta(path@, filter);
                            assoc::lemma_upsert_unique(pre, guid@, path@);
                            assoc::lemma_upsert_effect(pre, guid@, path@);
                            if assoc::has_key(pre, guid@) {
                                assoc::lemma_first_key_index(pre, guid@);
                            }
                        }
                        assoc_upsert(&mut files, guid, path);
                        proof {
                            let up = assoc::upsert(pre, guid@, path@);
                            assert(entry_views(files@) == up);
                            assert forall|i: int| 0 <= i < up.len() implies ends_with_meta(
                                (#[trigger] up[i]).1,
                            ) by {
                                if assoc::has_key(pre, guid@) {
                                    let f = assoc::first_key_index(pre, guid@);
                                    assert(up == pre.update(f, (guid@, path@)));
                                    if i != f {
                                        assert(up[i] == pre[i]);
                                    }
                                } else {
                                    assert(up == pre.push((guid@, path@)));
                                    if i < pre.len() {
                                        assert(up[i] == pre[i]);
                                    }
                                }
                            }
                            assert(scan(pre, rem, filter) == scan(up, rem.drop_first(), filter));
                        }
                    },
                }
            } else {
                proof {
                    assert(!is_candidate(rem.first().0, filter));
                    assert(scan(pre, rem, filter) == scan(pre, rem.drop_first(), filter));
                }
            }
            idx = idx + 1;
        }
        proof {
            assert(all.skip(idx as int) =~= Seq::empty());
        }
        Ok(ProjectScope { base_dir: source, files, scan_config: cfg })
    }

    /// Returns the handle of the asset indexed under this GUID, or
    /// `GuidNotFound` exactly when no asset is.
    pub fn find_asset_by_guid<A: AssetKind>(&self, asset_id: &str) -> (r: Result<A, ScopeError>)
        ensures
            match r {
                Ok(a) => assoc::has_key(self.entries(), asset_id@) && a.guid_view() == asset_id@,
                Err(e) => !assoc::has_key(self.entries(), asset_id@) && (e matches
                    ScopeError::GuidNotFound(g) && g@ == asset_id@),
            },
    {
        let key: String = asset_id.to_owned();
        let n = self.files.len();
        let mut i: usize = 0;
        while i < n
            invariant
                i <= n,
                n == self.files@.len(),
                key@ == asset_id@,
                forall|j: int| 0 <= j < i ==> self.entries()[j].0 != asset_id@,
            decreases n - i,
        {
            let entry = &self.files[i];
            if entry.0 == key {
                assert(self.entries()[i as int].0 == asset_id@);
                return Ok(A::from_reference(UnityAssetReference { file_id: 0, guid: key, ty: 0 }));
            }
            i = i + 1;
        }
        Err(ScopeError::GuidNotFound(key))
    }

    /// The value `find_name` assigns: the GUID of the first entry, in scan
    /// order, whose file name contains the fragment, if any does.
    pub open spec fn find_name(
        es: Seq<(Seq<char>, Seq<char>)>,
        frag: Seq<char>,
    ) -> Option<Seq<char>>
        decreases es.len(),
    {
        if es.len() == 0 {
            Option::None
        } else if strutil::contains_seq(strutil::spec_file_name(es.first().1), frag) {
            Option::Some(es.first().0)
        } else {
            Self::find_name(es.drop_first(), frag)
        }
    }

    /// Returns the handle of the first indexed asset, in scan order, whose
    /// sidecar file name contains `asset_name`, or `NameNotFound` exactly
    /// when none does. Scan order is this library's documented choice; the
    /// index gives no other ordering guarantee.
    pub fn find_asset_by_name<A: AssetKind>(&self, asset_name: &str) -> (r: Result<A, ScopeError>)
        ensures
            match r {
                Ok(a) => {
                    &&& Self::find_name(self.entries(), asset_name@) is Some
                    &&& a.guid_view() == Self::find_name(self.entries(), asset_name@)->Some_0
                },
                Err(e) => Self::find_name(self.entries(), asset_name@) is None && (e matches
                    ScopeError::NameNotFound(f) && f@ == asset_name@),
            },
    {
        let ghost es = self.entries();
        let n = self.files.len();
        let mut i: usize = 0;
        proof {
            assert(es.skip(0) =~= es);
        }
        while i < n
            invariant
                i <= n,
                n == self.files@.len(),
                es == self.entries(),
                Self::find_name(es, asset_name@) == Self::find_name(
                    es.skip(i as int),
                    asset_name@,
                ),
            decreases n - i,
        {
            proof {
                assert(es.skip(i as int).first() == es[i as int]);
                assert(es.skip(i as int).drop_first() =~= es.skip(i as int + 1));
            }
            let entry = &self.files[i];
            let fname = strutil::file_name_of(entry.1.as_str());
            if strutil::contains_sub(fname.as_str(), asset_name) {
                let guid = entry.0.clone();
                return Ok(
                    A::from_reference(UnityAssetReference { file_id: 0, guid, ty: 0 }),
                );
            }
            i = i + 1;
        }
        proof {
            assert(es.skip(n as int) =~= Seq::empty());
        }
        Err(ScopeError::NameNotFound(asset_name.to_owned()))
    }

    /// The indexed asset's own path for a GUID the index holds: the sidecar
    /// path with the metadata suffix removed.
    pub fn asset_path(&self, guid: &str) -> (r: String)
        requires
            self.wf(),
            assoc::has_key(self.entries(), guid@),
        ensures
            match assoc::lookup(self.entries(), guid@) {
                Some(p) => r@ == p.take(p.len() - 5),
                None => false,
            },
    {
        let key: String = guid.to_owned();
        let n = self.files.len();
        let mut i: usize = 0;
        while i < n
            invariant
                i <= n,
                n == self.files@.len(),
                key@ == guid@,
                self.wf(),
                assoc::has_key(self.entries(), guid@),
                forall|j: int| 0 <= j < i ==> self.entries()[j].0 != guid@,
            decreases n - i,
        {
            let entry = &self.files[i];
            if entry.0 == key {
                proof {
                    assert(self.entries()[i as int].0 == guid@);
                    assoc::lemma_lookup_at(self.entries(), guid@, i as int);
                    assert(ends_with_meta(self.entries()[i as int].1));
                }
                let p = entry.1.as_str();
                let len = p.unicode_len();
                let r = p.substring_char(0, len - 5);
                assert(r@ =~= self.entries()[i as int].1.take(
                    self.entries()[i as int].1.len() - 5,
                ));
                return r.to_owned();
            }
            i = i + 1;
        }
        proof {
            let w = choose|w: int| 0 <= w < self.entries().len() && self.entries()[w].0 == guid@;
            assert(false);
        }
        unreached()
    }
}

} // verus!
