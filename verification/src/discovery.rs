//! Plugin discovery: scanning configured directories for candidate parser
//! modules by file-extension convention.
//!
//! Discovery only locates candidate files by naming convention; it never
//! loads or invokes them. The filesystem itself is observed outside this
//! module: a caller lists each configured search path and hands the
//! outcomes in as [`DirListing`] values, which the verified scan turns
//! into candidates.

use vstd::prelude::*;

use crate::text::chars_of;

verus! {

/// Error values of plugin discovery.
#[derive(Debug)]
pub enum DiscoveryError {
    DirectoryNotFound(String),
    PermissionDenied(String),
    IoError(String),
}

/// One entry of a listed directory: its full path and whether it is a
/// regular file.
#[derive(Debug, Clone)]
pub struct DirEntry {
    pub path: String,
    pub is_regular_file: bool,
}

/// The observed outcome of listing one search path.
#[derive(Debug)]
pub enum DirListing {
    /// The path does not exist.
    Missing,
    /// The path exists but is not a directory.
    NotADirectory,
    /// Listing the directory was denied.
    AccessDenied,
    /// The entries of the directory.
    Listed(Vec<DirEntry>),
    /// Listing failed for any other reason, with its description.
    Failed(String),
}

/// The index of the last occurrence of `c` in `s`, if any.
pub open spec fn rfind(s: Seq<char>, c: char) -> Option<int>
    decreases s.len(),
{
    if s.len() == 0 {
        None
    } else if s.last() == c {
        Some(s.len() - 1)
    } else {
        rfind(s.drop_last(), c)
    }
}

/// Where the final path component of `p` begins: right after the last
/// separator, or at the start.
pub open spec fn base_start(p: Seq<char>) -> int {
    match rfind(p, '/') {
        Some(i) => i + 1,
        None => 0,
    }
}

/// The position of the dot that separates the extension of `p`, if the
/// final component has one. A component whose only dot is its first
/// character has no extension.
pub open spec fn ext_dot_pos(p: Seq<char>) -> Option<int> {
    match rfind(p, '.') {
        Some(i) => if i > base_start(p) {
            Some(i)
        } else {
            None
        },
        None => None,
    }
}

/// The final path component of `p` without its extension.
pub open spec fn stem_of(p: Seq<char>) -> Seq<char> {
    match ext_dot_pos(p) {
        Some(i) => p.subrange(base_start(p), i),
        None => p.subrange(base_start(p), p.len() as int),
    }
}

/// The extension of the final component of `p`, without the dot.
pub open spec fn extension_of(p: Seq<char>) -> Option<Seq<char>> {
    match ext_dot_pos(p) {
        Some(i) => Some(p.subrange(i + 1, p.len() as int)),
        None => None,
    }
}

/// Whether `e` spells one of the native-module extensions, compared
/// without regard to ASCII case.
pub open spec fn is_module_extension(e: Seq<char>) -> bool {
    ||| (e.len() == 2 && lower_or_upper(e[0], 's', 'S') && lower_or_upper(e[1], 'o', 'O'))
    ||| (e.len() == 5 && lower_or_upper(e[0], 'd', 'D') && lower_or_upper(e[1], 'y', 'Y')
        && lower_or_upper(e[2], 'l', 'L') && lower_or_upper(e[3], 'i', 'I') && lower_or_upper(
        e[4],
        'b',
        'B',
    ))
    ||| (e.len() == 3 && lower_or_upper(e[0], 'd', 'D') && lower_or_upper(e[1], 'l', 'L')
        && lower_or_upper(e[2], 'l', 'L'))
}

/// `c` equals the letter `l` or its uppercase form `u`.
pub open spec fn lower_or_upper(c: char, l: char, u: char) -> bool {
    c == l || c == u
}

/// Whether the path carries a native-module extension.
pub open spec fn has_module_extension(p: Seq<char>) -> bool {
    match extension_of(p) {
        Some(e) => is_module_extension(e),
        None => false,
    }
}

/// The paths of the regular files among `es` that carry a module
/// extension, in order.
pub open spec fn candidate_paths(es: Seq<DirEntry>) -> Seq<Seq<char>>
    decreases es.len(),
{
    if es.len() == 0 {
        Seq::empty()
    } else {
        let rest = candidate_paths(es.drop_last());
        if es.last().is_regular_file && has_module_extension(es.last().path@) {
            rest.push(es.last().path@)
        } else {
            rest
        }
    }
}

/// The outcome of a whole discovery scan over the listings of the search
/// paths, in order: missing paths, non-directories and denied listings
/// contribute nothing; any other listing failure aborts the scan with its
/// description; listed directories contribute their candidate files.
pub open spec fn scan_listings(ls: Seq<DirListing>) -> Result<Seq<Seq<char>>, Seq<char>>
    decreases ls.len(),
{
    if ls.len() == 0 {
        Ok(Seq::empty())
    } else {
        match scan_listings(ls.drop_last()) {
            Err(m) => Err(m),
            Ok(acc) => match ls.last() {
                DirListing::Listed(es) => Ok(acc + candidate_paths(es@)),
                DirListing::Failed(m) => Err(m@),
                _ => Ok(acc),
            },
        }
    }
}

/// Whether the filename stem of `p` is `name` itself or `name` with the
/// conventional `lib` prefix.
pub open spec fn stem_matches(p: Seq<char>, name: Seq<char>) -> bool {
    stem_of(p) == name || stem_of(p) == seq!['l', 'i', 'b'] + name
}

/// The first candidate whose stem matches `name`, if any.
pub open spec fn first_match(cands: Seq<Seq<char>>, name: Seq<char>) -> Option<Seq<char>>
    decreases cands.len(),
{
    if cands.len() == 0 {
        None
    } else if stem_matches(cands[0], name) {
        Some(cands[0])
    } else {
        first_match(cands.skip(1), name)
    }
}

/// A scan in which no listing failed never yields an error. In particular
/// a nonexistent, non-directory or permission-denied search path never
/// makes discovery raise.
pub proof fn lemma_scan_without_failure_is_ok(ls: Seq<DirListing>)
    requires
        forall|j: int| 0 <= j < ls.len() ==> !(#[trigger] ls[j] is Failed),
    ensures
        scan_listings(ls) is Ok,
    decreases ls.len(),
{
    if ls.len() > 0 {
        assert(ls[ls.len() - 1] == ls.last());
        assert forall|j: int| 0 <= j < ls.drop_last().len() implies !(#[trigger] ls.drop_last()[j]
            is Failed) by {
            assert(ls.drop_last()[j] == ls[j]);
        }
        lemma_scan_without_failure_is_ok(ls.drop_last());
    }
}

/// A nonexistent search path leaves the scan entirely unchanged: it is
/// skipped silently and contributes an empty candidate list.
pub proof fn lemma_missing_path_is_skipped(ls: Seq<DirListing>, i: int)
    requires
        0 <= i <= ls.len(),
    ensures
        scan_listings(ls.insert(i, DirListing::Missing)) == scan_listings(ls),
    decreases ls.len(),
{
    let ls2 = ls.insert(i, DirListing::Missing);
    if i == ls.len() {
        assert(ls2.drop_last() =~= ls);
        assert(ls2.last() == DirListing::Missing);
    } else {
        assert(ls.len() > 0);
        assert(ls2.last() == ls.last());
        assert(ls2.drop_last() =~= ls.drop_last().insert(i, DirListing::Missing));
        lemma_missing_path_is_skipped(ls.drop_last(), i);
    }
}

/// Once a scan prefix has failed, the whole scan reports that failure.
proof fn lemma_scan_err_prefix(ls: Seq<DirListing>, k: int)
    requires
        0 <= k <= ls.len(),
        scan_listings(ls.take(k)) is Err,
    ensures
        scan_listings(ls) == scan_listings(ls.take(k)),
    decreases ls.len(),
{
    if k == ls.len() {
        assert(ls.take(k) =~= ls);
    } else {
        assert(ls.drop_last() =~= ls.take(ls.len() - 1));
        assert(ls.drop_last().take(k) =~= ls.take(k));
        lemma_scan_err_prefix(ls.drop_last(), k);
    }
}

/// Manages plugin discovery over an ordered list of search paths.
pub struct PluginDiscovery {
    pub search_paths: Vec<String>,
}

/// Relies on `dirs::home_dir`: the user's home directory, when the
/// platform reports one. The result depends on the environment, so nothing
/// further is claimed of it.
#[verifier::external_body]
fn home_dir_string() -> (r: Option<String>)
{
    dirs::home_dir().map(|p| p.to_string_lossy().into_owned())
}

impl PluginDiscovery {
    /// The default search-path list seeded from a resolved home
    /// directory: the user's plugins directory under `home` when one is
    /// known — an unresolvable home is skipped gracefully — followed by
    /// the system-wide plugin directories.
    pub fn default_paths_from(home: Option<String>) -> (paths: Vec<String>)
        ensures
            match home {
                Some(h) => paths@.len() == 3 && paths@[0]@ == h@ + "/.splash/plugins"@,
                None => paths@.len() == 2,
            },
            paths@[paths@.len() - 2]@ == "/usr/local/lib/splash/plugins"@,
            paths@[paths@.len() - 1]@ == "/usr/lib/splash/plugins"@,
    {
        let mut paths: Vec<String> = Vec::new();
        match home {
            Some(home_dir) => {
                let mut user_dir = home_dir;
                user_dir.append("/.splash/plugins");
                paths.push(user_dir);
            },
            None => {},
        }
        paths.push(String::from_str("/usr/local/lib/splash/plugins"));
        paths.push(String::from_str("/usr/lib/splash/plugins"));
        paths
    }

    /// Creates a plugin discovery manager with the default search paths: a
    /// plugins directory under the user's home, when one is known, then
    /// the system-wide plugin directories.
    pub fn new() -> (d: Self)
        ensures
            2 <= d.search_paths@.len() <= 3,
            d.search_paths@.len() == 3 ==> exists|h: Seq<char>|
                d.search_paths@[0]@ == h + "/.splash/plugins"@,
            d.search_paths@[d.search_paths@.len() - 2]@ == "/usr/local/lib/splash/plugins"@,
            d.search_paths@[d.search_paths@.len() - 1]@ == "/usr/lib/splash/plugins"@,
    {
        let home = home_dir_string();
        let ghost resolved = home;
        let paths = Self::default_paths_from(home);
        proof {
            match resolved {
                Some(h) => {
                    assert(exists|hs: Seq<char>|
                        paths@[0]@ == hs + "/.splash/plugins"@) by {
                        assert(paths@[0]@ == h@ + "/.splash/plugins"@);
                    }
                },
                None => {},
            }
        }
        PluginDiscovery { search_paths: paths }
    }

    /// Creates a plugin discovery manager with custom search paths.
    pub fn with_paths(paths: Vec<String>) -> (d: Self)
        ensures
            d.search_paths@ == paths@,
    {
        PluginDiscovery { search_paths: paths }
    }

    /// Appends a custom search path.
    pub fn add_path(&mut self, path: String)
        ensures
            final(self).search_paths@ == old(self).search_paths@.push(path),
    {
        self.search_paths.push(path);
    }

    /// All configured search paths, in order.
    pub fn search_paths(&self) -> (r: &Vec<String>)
        ensures
            r == &self.search_paths,
    {
        &self.search_paths
    }

    /// Whether a path follows the plugin-file naming convention: its final
    /// component carries one of the native-module extensions, compared
    /// case-insensitively. Whether the path names a regular file is
    /// recorded by whoever listed the directory, on the [`DirEntry`].
    pub fn is_plugin_file(&self, path: &str) -> (b: bool)
        ensures
            b == has_module_extension(path@),
    {
        let v = chars_of(path);
        match find_ext_dot(&v) {
            Some(i) => {
                let e_len: usize = v.len() - (i + 1);
                if e_len == 2 {
                    ext_char_matches(&v, i + 1, 0, 's', 'S') && ext_char_matches(
                        &v,
                        i + 1,
                        1,
                        'o',
                        'O',
                    )
                } else if e_len == 5 {
                    ext_char_matches(&v, i + 1, 0, 'd', 'D') && ext_char_matches(
                        &v,
                        i + 1,
                        1,
                        'y',
                        'Y',
                    ) && ext_char_matches(&v, i + 1, 2, 'l', 'L') && ext_char_matches(
                        &v,
                        i + 1,
                        3,
                        'i',
                        'I',
                    ) && ext_char_matches(&v, i + 1, 4, 'b', 'B')
                } else if e_len == 3 {
                    ext_char_matches(&v, i + 1, 0, 'd', 'D') && ext_char_matches(
                        &v,
                        i + 1,
                        1,
                        'l',
                        'L',
                    ) && ext_char_matches(&v, i + 1, 2, 'l', 'L')
                } else {
                    false
                }
            },
            None => false,
        }
    }

    /// Collects candidate plugin files out of the observed listings of the
    /// search paths: every regular file whose extension follows the
    /// native-module convention. Missing paths, non-directories and denied
    /// listings are skipped silently; any other listing failure aborts the
    /// scan and is reported.
    pub fn collect_candidates(&self, listings: &Vec<DirListing>) -> (r: Result<
        Vec<String>,
        DiscoveryError,
    >)
        ensures
            match r {
                Ok(v) => scan_listings(listings@) == Ok::<_, Seq<char>>(
                    Seq::new(v@.len(), |i: int| v@[i]@),
                ),
                Err(e) => e matches DiscoveryError::IoError(m) && scan_listings(listings@)
                    == Err::<Seq<Seq<char>>, _>(m@),
            },
    {
        let n: usize = listings.len();
        let mut out: Vec<String> = Vec::new();
        let mut i: usize = 0;
        proof {
            assert(listings@.take(0) =~= Seq::<DirListing>::empty());
            assert(Seq::new(out@.len(), |j: int| out@[j]@) =~= Seq::<Seq<char>>::empty());
        }
        while i < n
            invariant
                n == listings@.len(),
                i <= n,
                scan_listings(listings@.take(i as int)) == Ok::<_, Seq<char>>(
                    Seq::new(out@.len(), |j: int| out@[j]@),
                ),
            decreases n - i,
        {
            proof {
                let prefix = listings@.take(i + 1);
                assert(prefix.drop_last() =~= listings@.take(i as int));
                assert(prefix.last() == listings@[i as int]);
            }
            match &listings[i] {
                DirListing::Listed(entries) => {
                    let m: usize = entries.len();
                    let mut k: usize = 0;
                    proof {
                        assert(candidate_paths(entries@.take(0)) =~= Seq::<Seq<char>>::empty());
                        assert(Seq::new(out@.len(), |j: int| out@[j]@) =~= scan_listings(
                            listings@.take(i as int),
                        )->Ok_0 + candidate_paths(entries@.take(0)));
                    }
                    while k < m
                        invariant
                            m == entries@.len(),
                            k <= m,
                            Seq::new(out@.len(), |j: int| out@[j]@) == scan_listings(
                                listings@.take(i as int),
                            )->Ok_0 + candidate_paths(entries@.take(k as int)),
                            scan_listings(listings@.take(i as int)) is Ok,
                        decreases m - k,
                    {
                        proof {
                            let ep = entries@.take(k + 1);
                            assert(ep.drop_last() =~= entries@.take(k as int));
                            assert(ep.last() == entries@[k as int]);
                        }
                        let entry = &entries[k];
                        let ghost prev = Seq::new(out@.len(), |j: int| out@[j]@);
                        if entry.is_regular_file && self.is_plugin_file(entry.path.as_str()) {
                            proof {
                                assert(candidate_paths(entries@.take(k + 1)) == candidate_paths(
                                    entries@.take(k as int),
                                ).push(entries@[k as int].path@));
                            }
                            out.push(entry.path.clone());
                            proof {
                                let path = entries@[k as int].path@;
                                assert(Seq::new(out@.len(), |j: int| out@[j]@) =~= prev.push(path));
                                assert(prev.push(path) =~= scan_listings(
                                    listings@.take(i as int),
                                )->Ok_0 + candidate_paths(entries@.take(k + 1)));
                            }
                        } else {
                            proof {
                                assert(candidate_paths(entries@.take(k + 1)) == candidate_paths(
                                    entries@.take(k as int),
                                ));
                                assert(Seq::new(out@.len(), |j: int| out@[j]@) =~= scan_listings(
                                    listings@.take(i as int),
                                )->Ok_0 + candidate_paths(entries@.take(k + 1)));
                            }
                        }
                        k = k + 1;
                    }
                    proof {
                        assert(entries@.take(m as int) =~= entries@);
                        assert(listings@.take(i + 1).last() == DirListing::Listed(*entries));
                        assert(scan_listings(listings@.take(i + 1)) == Ok::<_, Seq<char>>(
                            scan_listings(listings@.take(i as int))->Ok_0 + candidate_paths(
                                entries@,
                            ),
                        ));
                    }
                },
                DirListing::Failed(m) => {
                    proof {
                        assert(listings@.take(i + 1).last() == DirListing::Failed(*m));
                        assert(scan_listings(listings@.take(i + 1)) == Err::<Seq<Seq<char>>, _>(
                            m@,
                        ));
                        lemma_scan_err_prefix(listings@, i + 1);
                    }
                    return Err(DiscoveryError::IoError(m.clone()));
                },
                _ => {
                    proof {
                        assert(scan_listings(listings@.take(i + 1)) == scan_listings(
                            listings@.take(i as int),
                        ));
                    }
                },
            }
            i = i + 1;
        }
        proof {
            assert(listings@.take(n as int) =~= listings@);
        }
        Ok(out)
    }

    /// Finds a plugin by name among the candidates of the observed
    /// listings: the first candidate whose filename stem equals `name` or
    /// equals `name` with the `lib` prefix, if any. No loading occurs.
    pub fn find_plugin(&self, name: &str, listings: &Vec<DirListing>) -> (r: Result<
        Option<String>,
        DiscoveryError,
    >)
        ensures
            match r {
                Ok(found) => scan_listings(listings@) is Ok && {
                    let cands = scan_listings(listings@)->Ok_0;
                    match found {
                        Some(p) => first_match(cands, name@) == Some(p@),
                        None => first_match(cands, name@) is None,
                    }
                },
                Err(e) => e matches DiscoveryError::IoError(m) && scan_listings(listings@)
                    == Err::<Seq<Seq<char>>, _>(m@),
            },
    {
        let candidates = match self.collect_candidates(listings) {
            Ok(v) => v,
            Err(e) => {
                return Err(e);
            },
        };
        let ghost cands = Seq::new(candidates@.len(), |i: int| candidates@[i]@);
        let n: usize = candidates.len();
        let mut i: usize = 0;
        proof {
            assert(cands =~= scan_listings(listings@)->Ok_0);
            assert(cands.skip(0) =~= cands);
        }
        while i < n
            invariant
                n == candidates@.len(),
                cands == Seq::new(candidates@.len(), |i: int| candidates@[i]@),
                scan_listings(listings@) == Ok::<_, Seq<char>>(cands),
                i <= n,
                first_match(cands, name@) == first_match(cands.skip(i as int), name@),
            decreases n - i,
        {
            proof {
                assert(cands.skip(i as int)[0] == cands[i as int]);
                assert(cands.skip(i as int).skip(1) =~= cands.skip(i + 1));
            }
            if stem_matches_name(candidates[i].as_str(), name) {
                proof {
                    assert(first_match(cands.skip(i as int), name@) == Some(cands[i as int]));
                }
                let found = candidates[i].clone();
                proof {
                    assert(found@ == cands[i as int]);
                    assert(first_match(scan_listings(listings@)->Ok_0, name@) == Some(found@));
                }
                return Ok(Some(found));
            }
            i = i + 1;
        }
        proof {
            assert(cands.skip(n as int).len() == 0);
        }
        Ok(None)
    }
}

/// Whether the character at `at + off` equals `l` or `u`.
fn ext_char_matches(v: &Vec<char>, at: usize, off: usize, l: char, u: char) -> (b: bool)
    requires
        at + off < v@.len(),
    ensures
        b == lower_or_upper(v@[at + off], l, u),
{
    let n: usize = v.len();
    let c = v[at + off];
    c == l || c == u
}

/// The extension dot of the path in `v`, as by [`ext_dot_pos`].
fn find_ext_dot(v: &Vec<char>) -> (r: Option<usize>)
    ensures
        match r {
            Some(i) => ext_dot_pos(v@) == Some(i as int) && i < v@.len(),
            None => ext_dot_pos(v@) is None,
        },
{
    let n: usize = v.len();
    let dot = rfind_exec(v, '.');
    match dot {
        Some(i) => {
            let slash = rfind_exec(v, '/');
            let bstart: usize = match slash {
                Some(j) => j + 1,
                None => 0,
            };
            if i > bstart {
                Some(i)
            } else {
                None
            }
        },
        None => None,
    }
}

/// The last occurrence of `c` in `v`, as by [`rfind`].
fn rfind_exec(v: &Vec<char>, c: char) -> (r: Option<usize>)
    ensures
        match r {
            Some(i) => rfind(v@, c) == Some(i as int) && i < v@.len(),
            None => rfind(v@, c) is None,
        },
{
    let mut j: usize = v.len();
    proof {
        assert(v@.take(j as int) =~= v@);
    }
    while j > 0
        invariant
            j <= v@.len(),
            rfind(v@, c) == rfind(v@.take(j as int), c),
        decreases j,
    {
        proof {
            let prefix = v@.take(j as int);
            assert(prefix.drop_last() =~= v@.take(j - 1));
            assert(prefix.last() == v@[j - 1]);
        }
        if v[j - 1] == c {
            return Some(j - 1);
        }
        j = j - 1;
    }
    None
}

/// Whether the filename stem of `path` equals `name` or `lib` + `name`.
fn stem_matches_name(path: &str, name: &str) -> (b: bool)
    ensures
        b == stem_matches(path@, name@),
{
    let v = chars_of(path);
    let n: usize = v.len();
    let bstart: usize = match rfind_exec(&v, '/') {
        Some(j) => j + 1,
        None => 0,
    };
    let send: usize = match find_ext_dot(&v) {
        Some(i) => i,
        None => n,
    };
    let nv = chars_of(name);
    let nlen: usize = nv.len();
    let ghost stem = stem_of(path@);
    proof {
        assert(bstart == base_start(path@));
        assert(bstart <= send && send <= n);
        assert(stem =~= v@.subrange(bstart as int, send as int));
        assert(stem.len() == send - bstart);
    }
    let stem_len: usize = send - bstart;
    let eq_name: bool = if stem_len == nlen {
        range_eq(&v, bstart, &nv, 0, nlen)
    } else {
        false
    };
    proof {
        if stem_len == nlen {
            assert(nv@.subrange(0, nlen as int) =~= name@);
            assert(v@.subrange(bstart as int, (bstart + nlen) as int) == stem);
        }
        assert(eq_name == (stem == name@));
    }
    let eq_lib: bool = if stem_len >= 3 && stem_len - 3 == nlen {
        v[bstart] == 'l' && v[bstart + 1] == 'i' && v[bstart + 2] == 'b' && range_eq(
            &v,
            bstart + 3,
            &nv,
            0,
            nlen,
        )
    } else {
        false
    };
    proof {
        let lib3 = seq!['l', 'i', 'b'] + name@;
        assert(lib3.len() == nlen + 3);
        if stem_len >= 3 && stem_len - 3 == nlen {
            assert(nv@.subrange(0, nlen as int) =~= name@);
            if eq_lib {
                assert(stem[0] == v@[bstart as int]);
                assert(stem[1] == v@[bstart + 1]);
                assert(stem[2] == v@[bstart + 2]);
                assert forall|j: int| 0 <= j < stem.len() implies stem[j] == lib3[j] by {
                    if j >= 3 {
                        assert(v@.subrange((bstart + 3) as int, (bstart + 3 + nlen) as int)[j - 3]
                            == nv@.subrange(0, nlen as int)[j - 3]);
                        assert(stem[j] == v@[bstart + j]);
                    }
                }
                assert(stem =~= lib3);
            } else {
                if stem == lib3 {
                    assert(v@[bstart as int] == stem[0]);
                    assert(v@[bstart + 1] == stem[1]);
                    assert(v@[bstart + 2] == stem[2]);
                    assert forall|j: int|
                        0 <= j < nlen implies #[trigger] v@.subrange(
                        (bstart + 3) as int,
                        (bstart + 3 + nlen) as int,
                    )[j] == nv@.subrange(0, nlen as int)[j] by {
                        assert(v@[bstart + 3 + j] == stem[3 + j]);
                    }
                    assert(v@.subrange((bstart + 3) as int, (bstart + 3 + nlen) as int)
                        =~= nv@.subrange(0, nlen as int));
                    assert(false);
                }
            }
        } else {
            assert(stem.len() != lib3.len());
        }
        assert(eq_lib == (stem == lib3));
    }
    eq_name || eq_lib
}

/// Whether `a[astart .. astart + len]` equals `b[bstart .. bstart + len]`.
fn range_eq(a: &Vec<char>, astart: usize, b: &Vec<char>, bstart: usize, len: usize) -> (r: bool)
    requires
        astart + len <= a@.len(),
        bstart + len <= b@.len(),
    ensures
        r == (a@.subrange(astart as int, (astart + len) as int) == b@.subrange(
            bstart as int,
            (bstart + len) as int,
        )),
{
    let an: usize = a.len();
    let bn: usize = b.len();
    let mut i: usize = 0;
    while i < len
        invariant
            an == a@.len(),
            bn == b@.len(),
            astart + len <= a@.len(),
            bstart + len <= b@.len(),
            i <= len,
            forall|j: int| 0 <= j < i ==> #[trigger] a@[astart + j] == b@[bstart + j],
        decreases len - i,
    {
        if a[astart + i] != b[bstart + i] {
            proof {
                assert(a@.subrange(astart as int, (astart + len) as int)[i as int] != b@.subrange(
                    bstart as int,
                    (bstart + len) as int,
                )[i as int]);
            }
            return false;
        }
        i = i + 1;
    }
    proof {
        assert forall|j: int| 0 <= j < len implies #[trigger] a@.subrange(
            astart as int,
            (astart + len) as int,
        )[j] == b@.subrange(bstart as int, (bstart + len) as int)[j] by {
            assert(a@[astart + j] == b@[bstart + j]);
        }
        assert(a@.subrange(astart as int, (astart + len) as int) =~= b@.subrange(
            bstart as int,
            (bstart + len) as int,
        ));
    }
    true
}

impl Default for PluginDiscovery {
    /// A discovery manager with the default search paths.
    fn default() -> (d: Self)
        ensures
            2 <= d.search_paths@.len() <= 3,
            d.search_paths@.len() == 3 ==> exists|h: Seq<char>|
                d.search_paths@[0]@ == h + "/.splash/plugins"@,
            d.search_paths@[d.search_paths@.len() - 2]@ == "/usr/local/lib/splash/plugins"@,
            d.search_paths@[d.search_paths@.len() - 1]@ == "/usr/lib/splash/plugins"@,
    {
        Self::new()
    }
}

} // verus!
