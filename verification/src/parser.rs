//! The environment parse pipeline: config reading, version extraction,
//! package discovery, and assembly of the full environment record, all over
//! a directory snapshot.

use vstd::prelude::*;
use vstd::string::*;

use crate::error::VenvError;
use crate::fstree::{
    find_entry, find_entry_spec, node_mtime, node_name, node_size, size_sum, FsNode,
};
use crate::metadata::{metadata_of_text, Metadata, MetadataView};
use crate::model::{join_path_spec, latest_modification_spec, PackageView, Venv, VenvView};
use crate::strutil::{
    find_char, find_char_spec, split_lines, split_lines_spec, starts_with, trim, trim_spec,
    trim_start, trim_start_spec,
};
use crate::model::Package;
use crate::utils::{first_dir_spec, get_python_dir, is_manifest_name, manifest_names, sort_lex};

verus! {

broadcast use vstd::string::group_string_axioms;

/// What differs between the two platform layouts: the binaries directory
/// name, the library directory name, and whether one more directory level
/// (the Python minor-version folder) sits between the library directory and
/// site-packages.
#[derive(Clone, Copy, Debug, PartialEq, Eq, Structural)]
pub enum Platform {
    Windows,
    Posix,
}

/// The platform's name for the executables directory.
pub open spec fn bin_dir_name_spec(p: Platform) -> Seq<char> {
    if p is Windows {
        "Scripts"@
    } else {
        "bin"@
    }
}

/// The platform's name for the library directory.
pub open spec fn lib_dir_name_spec(p: Platform) -> Seq<char> {
    if p is Windows {
        "Lib"@
    } else {
        "lib"@
    }
}

impl Platform {
    pub fn bin_dir_name(&self) -> (r: &'static str)
        ensures
            r@ == bin_dir_name_spec(*self),
    {
        match self {
            Platform::Windows => "Scripts",
            Platform::Posix => "bin",
        }
    }

    pub fn lib_dir_name(&self) -> (r: &'static str)
        ensures
            r@ == lib_dir_name_spec(*self),
    {
        match self {
            Platform::Windows => "Lib",
            Platform::Posix => "lib",
        }
    }

    /// Does the layout descend one extra level below the library directory?
    pub fn extra_descent(&self) -> (r: bool)
        ensures
            r == (*self is Posix),
    {
        match self {
            Platform::Windows => false,
            Platform::Posix => true,
        }
    }
}

/// The entries of a directory node; meaningful only when `n` is a directory.
pub open spec fn dir_entries(n: FsNode) -> Seq<FsNode> {
    n->Dir_entries@
}

/// The config file node of an environment root, if any.
pub open spec fn config_node_spec(root: FsNode) -> Option<FsNode> {
    if root is Dir {
        find_entry_spec(dir_entries(root), "pyvenv.cfg"@)
    } else {
        None
    }
}

/// The text of the environment's config file: present only when the entry
/// exists, is a file, and its content was loaded into the snapshot.
pub open spec fn config_text_spec(root: FsNode) -> Option<Seq<char>> {
    match config_node_spec(root) {
        Some(n) => match n {
            FsNode::File { content, .. } => match content {
                Some(c) => Some(c@),
                None => None,
            },
            _ => None,
        },
        None => None,
    }
}

/// Does this line of the config file declare the version?
pub open spec fn is_version_line(l: Seq<char>) -> bool {
    "version"@.is_prefix_of(trim_start_spec(l))
}

/// The first version-declaring line of the config text.
pub open spec fn find_version_line(ls: Seq<Seq<char>>) -> Option<Seq<char>>
    decreases ls,
{
    if ls.len() == 0 {
        None
    } else if is_version_line(ls[0]) {
        Some(ls[0])
    } else {
        find_version_line(ls.drop_first())
    }
}

/// The version carried by a config line: the segment between the first `=`
/// and the next `=` or the end of the line, trimmed. Absent when the line
/// has no `=` at all.
pub open spec fn version_of_line(l: Seq<char>) -> Option<Seq<char>> {
    let i = find_char_spec(l, '=');
    if i == l.len() {
        None
    } else {
        let rest = l.skip(i + 1);
        Some(trim_spec(rest.take(find_char_spec(rest, '='))))
    }
}

/// The Python version declared by a config text, if any.
pub open spec fn version_of_cfg(cfg: Seq<char>) -> Option<Seq<char>> {
    match find_version_line(split_lines_spec(cfg)) {
        Some(l) => version_of_line(l),
        None => None,
    }
}

/// The site-packages directory of an environment snapshot: under the
/// platform's library directory, with one extra descent into the first
/// subdirectory on layouts that keep a Python minor-version folder there.
pub open spec fn site_packages_node(root: FsNode, plat: Platform) -> Option<FsNode> {
    if !(root is Dir) {
        None
    } else {
        match find_entry_spec(dir_entries(root), lib_dir_name_spec(plat)) {
            Some(lib) => {
                if !(lib is Dir) {
                    None
                } else {
                    let base = if plat is Windows {
                        Some(lib)
                    } else {
                        first_dir_spec(dir_entries(lib))
                    };
                    match base {
                        Some(b) => match find_entry_spec(dir_entries(b), "site-packages"@) {
                            Some(sp) => if sp is Dir {
                                Some(sp)
                            } else {
                                None
                            },
                            None => None,
                        },
                        None => None,
                    }
                }
            },
            None => None,
        }
    }
}

/// Index of the first path separator, or the length if none occurs.
pub open spec fn find_path_sep_spec(p: Seq<char>) -> int
    decreases p.len(),
{
    if p.len() == 0 {
        0
    } else if p[0] == '/' || p[0] == '\\' {
        0
    } else {
        1 + find_path_sep_spec(p.drop_first())
    }
}

/// The final path component.
pub open spec fn base_name_spec(p: Seq<char>) -> Seq<char>
    decreases p.len(),
{
    let i = find_path_sep_spec(p);
    if 0 <= i < p.len() {
        base_name_spec(p.skip(i + 1))
    } else {
        p
    }
}

/// Index of the last `c` in `s`, or `-1` if absent.
pub open spec fn find_last_char_spec(s: Seq<char>, c: char) -> int
    decreases s,
{
    if s.len() == 0 {
        -1
    } else if s.last() == c {
        s.len() - 1
    } else {
        find_last_char_spec(s.drop_last(), c)
    }
}

/// The stem of the final path component: everything before its last dot,
/// unless the dot leads the name or none occurs.
pub open spec fn file_stem_spec(p: Seq<char>) -> Seq<char> {
    let b = base_name_spec(p);
    let k = find_last_char_spec(b, '.');
    if k <= 0 {
        b
    } else {
        b.take(k)
    }
}

proof fn lemma_find_path_sep_spec(p: Seq<char>)
    ensures
        0 <= find_path_sep_spec(p) <= p.len(),
        find_path_sep_spec(p) < p.len() ==> (p[find_path_sep_spec(p)] == '/' || p[
            find_path_sep_spec(p)] == '\\'),
        forall|j: int|
            0 <= j < find_path_sep_spec(p) ==> !(#[trigger] p[j] == '/' || p[j] == '\\'),
    decreases p.len(),
{
    if p.len() > 0 && !(p[0] == '/' || p[0] == '\\') {
        lemma_find_path_sep_spec(p.drop_first());
        assert forall|j: int|
            0 <= j < find_path_sep_spec(p) implies !(#[trigger] p[j] == '/' || p[j]
            == '\\') by {
            if j > 0 {
                assert(p.drop_first()[j - 1] == p[j]);
            }
        }
    }
}

proof fn lemma_base_name_after(p: Seq<char>, i: int)
    requires
        0 <= i <= p.len(),
        forall|j: int| i <= j < p.len() ==> !(#[trigger] p[j] == '/' || p[j] == '\\'),
        i > 0 ==> (p[i - 1] == '/' || p[i - 1] == '\\'),
    ensures
        base_name_spec(p) =~= p.skip(i),
    decreases p.len(),
{
    let f = find_path_sep_spec(p);
    lemma_find_path_sep_spec(p);
    if f >= p.len() {
        assert(i == 0);
        assert(p.skip(0) =~= p);
    } else {
        assert(i >= f + 1);
        assert(forall|j: int|
            i - f - 1 <= j < p.skip(f + 1).len() ==> !(#[trigger] p.skip(f + 1)[j] == '/'
                || p.skip(f + 1)[j] == '\\'));
        lemma_base_name_after(p.skip(f + 1), i - f - 1);
        assert(p.skip(f + 1).skip(i - f - 1) =~= p.skip(i));
    }
}

/// The final path component of `p`.
pub fn base_name(p: &str) -> (r: &str)
    ensures
        r@ == base_name_spec(p@),
{
    let n = p.unicode_len();
    let mut b: usize = n;
    while b > 0 && !(p.get_char(b - 1) == '/' || p.get_char(b - 1) == '\\')
        invariant
            0 <= b <= n,
            n == p@.len(),
            forall|j: int| b <= j < n ==> !(#[trigger] p@[j] == '/' || p@[j] == '\\'),
        decreases b,
    {
        b = b - 1;
    }
    proof {
        lemma_base_name_after(p@, b as int);
    }
    p.substring_char(b, n)
}

proof fn lemma_find_last_char_at(s: Seq<char>, c: char, k: int)
    requires
        -1 <= k < s.len(),
        k >= 0 ==> s[k] == c,
        forall|j: int| k < j < s.len() ==> s[j] != c,
    ensures
        find_last_char_spec(s, c) == k,
    decreases s,
{
    if s.len() > 0 && s.last() != c {
        lemma_find_last_char_at(s.drop_last(), c, k);
    }
}

/// The stem of the final path component of `p`: its name up to its last dot.
pub fn file_stem_of(p: &str) -> (r: &str)
    ensures
        r@ == file_stem_spec(p@),
{
    let b = base_name(p);
    let n = b.unicode_len();
    let mut k: usize = n;
    while k > 0 && b.get_char(k - 1) != '.'
        invariant
            0 <= k <= n,
            n == b@.len(),
            forall|j: int| k <= j < n ==> b@[j] != '.',
        decreases k,
    {
        k = k - 1;
    }
    if k <= 1 {
        proof {
            if k == 0 {
                lemma_find_last_char_at(b@, '.', -1);
            } else {
                lemma_find_last_char_at(b@, '.', 0);
            }
        }
        b
    } else {
        proof {
            lemma_find_last_char_at(b@, '.', k - 1);
            assert(b@.take(k - 1) =~= file_stem_spec(p@));
        }
        b.substring_char(0, k - 1)
    }
}

/// The staged state of one environment parse. Each stage fills one field;
/// the later stages require the earlier ones to have run.
pub struct VenvParser {
    pub root: FsNode,
    pub path: String,
    pub platform: Platform,
    pub now: u64,
    pub cfg: Option<String>,
    pub version: Option<String>,
    pub dist_info_packages: Option<Vec<String>>,
    pub package_dirs: Option<Vec<String>>,
}

impl VenvParser {
    /// Creates a parser over a snapshot. `root` must be the snapshot of the
    /// environment directory and `path` its canonical location; `now` is the
    /// timestamp recorded for packages that have no manifest.
    pub fn new(root: FsNode, path: String, platform: Platform, now: u64) -> (r: Self)
        ensures
            r.root == root,
            r.path == path,
            r.platform == platform,
            r.now == now,
            r.cfg is None,
            r.version is None,
            r.dist_info_packages is None,
            r.package_dirs is None,
    {
        VenvParser {
            root,
            path,
            platform,
            now,
            cfg: None,
            version: None,
            dist_info_packages: None,
            package_dirs: None,
        }
    }

    /// The environment's display name: the stem of its final path component.
    pub fn venv_name(&self) -> (r: String)
        ensures
            r@ == file_stem_spec(self.path@),
    {
        file_stem_of(self.path.as_str()).to_owned()
    }

    /// Where the environment keeps its executables.
    pub fn binaries_path(&self) -> (r: String)
        ensures
            r@ == join_path_spec(self.path@, bin_dir_name_spec(self.platform)),
    {
        crate::model::join_path(self.path.as_str(), self.platform.bin_dir_name())
    }

    /// Where the environment keeps its libraries.
    pub fn lib_path(&self) -> (r: String)
        ensures
            r@ == join_path_spec(self.path@, lib_dir_name_spec(self.platform)),
    {
        crate::model::join_path(self.path.as_str(), self.platform.lib_dir_name())
    }

    /// Reads the contents of the environment's config file from the
    /// snapshot. Fails with `NotFound` when the file is absent and with
    /// `IoError` when it exists but its text could not be read.
    pub fn read_config(self) -> (r: Result<Self, VenvError>)
        ensures
            match r {
                Ok(p) => {
                    &&& config_text_spec(self.root) matches Some(t)
                    &&& p.cfg matches Some(c) && c@ == t
                    &&& p.root == self.root
                    &&& p.path == self.path
                    &&& p.platform == self.platform
                    &&& p.now == self.now
                    &&& p.version == self.version
                    &&& p.dist_info_packages == self.dist_info_packages
                    &&& p.package_dirs == self.package_dirs
                },
                Err(e) => {
                    &&& config_text_spec(self.root) is None
                    &&& (config_node_spec(self.root) is None <==> e is NotFound)
                    &&& (config_node_spec(self.root) is Some <==> e is IoError)
                    &&& (e matches VenvError::NotFound(m) ==> m@ == self.path@)
                    &&& (e matches VenvError::IoError(m) ==> m@ == self.path@)
                },
            },
    {
        match &self.root {
            FsNode::Dir { entries, .. } => {
                match find_entry(entries, "pyvenv.cfg") {
                    Some(node) => {
                        match node {
                            FsNode::File { content: Some(c), .. } => {
                                let cfg = c.clone();
                                Ok(VenvParser { cfg: Some(cfg), ..self })
                            },
                            _ => Err(VenvError::IoError(self.path.clone())),
                        }
                    },
                    None => Err(VenvError::NotFound(self.path.clone())),
                }
            },
            _ => Err(VenvError::NotFound(self.path.clone())),
        }
    }

    /// Extracts the Python version from the config text: the first line that
    /// begins with `version` after leading whitespace, split at `=`. Fails
    /// with `ParseError` when no such line exists or the line carries no `=`.
    pub fn parse_version(self) -> (r: Result<Self, VenvError>)
        requires
            self.cfg is Some,
        ensures
            match r {
                Ok(p) => {
                    &&& version_of_cfg(self.cfg->Some_0@) matches Some(v)
                    &&& p.version matches Some(pv) && pv@ == v
                    &&& p.root == self.root
                    &&& p.path == self.path
                    &&& p.platform == self.platform
                    &&& p.now == self.now
                    &&& p.cfg == self.cfg
                    &&& p.dist_info_packages == self.dist_info_packages
                    &&& p.package_dirs == self.package_dirs
                },
                Err(e) => {
                    &&& version_of_cfg(self.cfg->Some_0@) is None
                    &&& e is ParseError
                },
            },
    {
        let cfg_string = match &self.cfg {
            Some(c) => c.clone(),
            None => String::new(),
        };
        let cfg = cfg_string.as_str();
        let lines = split_lines(cfg);
        let ghost ls = split_lines_spec(cfg@);
        let n = lines.len();
        let mut i: usize = 0;
        while i < n && !starts_with(trim_start(lines[i]), "version")
            invariant
                0 <= i <= n,
                n == lines@.len(),
                n == ls.len(),
                forall|k: int| 0 <= k < ls.len() ==> lines@[k]@ == ls[k],
                forall|j: int| 0 <= j < i ==> !is_version_line(#[trigger] ls[j]),
            decreases n - i,
        {
            i = i + 1;
        }
        proof {
            lemma_find_version_line_skip(ls, i as int);
            if i < n {
                assert(ls.skip(i as int)[0] == ls[i as int]);
            }
        }
        if i == n {
            return Err(VenvError::ParseError(self.path.clone()));
        }
        let line = lines[i];
        let ln = line.unicode_len();
        let eq1 = find_char(line, '=');
        proof {
            crate::strutil::lemma_find_char_spec(line@, '=');
        }
        if eq1 == ln {
            return Err(VenvError::ParseError(self.path.clone()));
        }
        let rest = line.substring_char(eq1 + 1, ln);
        proof {
            assert(rest@ =~= line@.skip(eq1 + 1));
        }
        let eq2 = find_char(rest, '=');
        proof {
            crate::strutil::lemma_find_char_spec(rest@, '=');
        }
        let seg = rest.substring_char(0, eq2);
        proof {
            assert(seg@ =~= rest@.take(eq2 as int));
        }
        let version = trim(seg).to_owned();
        Ok(VenvParser { version: Some(version), ..self })
    }
}

proof fn lemma_find_version_line_skip(ls: Seq<Seq<char>>, i: int)
    requires
        0 <= i <= ls.len(),
        forall|j: int| 0 <= j < i ==> !is_version_line(#[trigger] ls[j]),
    ensures
        find_version_line(ls) == find_version_line(ls.skip(i)),
    decreases i,
{
    if i > 0 {
        assert(forall|j: int|
            0 <= j < i - 1 ==> !is_version_line(#[trigger] ls.drop_first()[j]));
        lemma_find_version_line_skip(ls.drop_first(), i - 1);
        assert(ls.drop_first().skip(i - 1) =~= ls.skip(i));
    } else {
        assert(ls.skip(0) =~= ls);
    }
}

/// Marks an entry whose name carries the `.dist-info` extension, the ones
/// the cheap staleness probe looks at.
pub open spec fn dist_info_ext_name(name: Seq<char>) -> bool {
    ".dist-info"@.is_suffix_of(name) && name.len() > ".dist-info"@.len()
}

/// The greatest modification timestamp among the `.dist-info`-extended
/// entries of a site-packages listing, `0` with none.
pub open spec fn recent_mod_spec(es: Seq<FsNode>) -> u64
    decreases es,
{
    if es.len() == 0 {
        0u64
    } else {
        let rest = recent_mod_spec(es.drop_last());
        if dist_info_ext_name(node_name(es.last())) && node_mtime(es.last()) > rest {
            node_mtime(es.last())
        } else {
            rest
        }
    }
}

impl VenvParser {
    /// The site-packages directory of the snapshot, if the layout resolves.
    fn site_packages<'a>(&'a self) -> (r: Option<&'a FsNode>)
        ensures
            match r {
                Some(sp) => site_packages_node(self.root, self.platform) == Some(*sp),
                None => site_packages_node(self.root, self.platform) is None,
            },
    {
        let lib = match &self.root {
            FsNode::Dir { entries, .. } => {
                match find_entry(entries, self.platform.lib_dir_name()) {
                    Some(l) => l,
                    None => {
                        return None;
                    },
                }
            },
            _ => {
                return None;
            },
        };
        let base = match lib {
            FsNode::Dir { entries, .. } => {
                if self.platform.extra_descent() {
                    proof {
                        crate::utils::lemma_first_dir_spec_is_dir(entries@);
                    }
                    match get_python_dir(entries) {
                        Some(b) => b,
                        None => {
                            return None;
                        },
                    }
                } else {
                    lib
                }
            },
            _ => {
                return None;
            },
        };
        match base {
            FsNode::Dir { entries, .. } => {
                match find_entry(entries, "site-packages") {
                    Some(sp) => {
                        if sp.is_dir() {
                            Some(sp)
                        } else {
                            None
                        }
                    },
                    None => None,
                }
            },
            _ => None,
        }
    }

    /// Splits the site-packages listing into manifest directories and
    /// installed-package directories, both sorted. Fails with `IoError` when
    /// the site-packages directory cannot be resolved and with `NoPackages`
    /// when it holds no manifest at all.
    pub fn discover_packages(self) -> (r: Result<Self, VenvError>)
        ensures
            match r {
                Ok(p) => {
                    &&& site_packages_node(self.root, self.platform) matches Some(sp)
                    &&& manifest_names(dir_entries(sp)).len() > 0
                    &&& p.dist_info_packages matches Some(d) && d.deep_view() == sort_lex(
                        manifest_names(dir_entries(sp)),
                    )
                    &&& p.package_dirs matches Some(pd) && pd.deep_view() == sort_lex(
                        crate::utils::package_names(dir_entries(sp)),
                    )
                    &&& p.root == self.root
                    &&& p.path == self.path
                    &&& p.platform == self.platform
                    &&& p.now == self.now
                    &&& p.cfg == self.cfg
                    &&& p.version == self.version
                },
                Err(e) => {
                    &&& (site_packages_node(self.root, self.platform) is None <==> e is IoError)
                    &&& (e is NoPackages <==> (site_packages_node(self.root, self.platform)
                        matches Some(sp) && manifest_names(dir_entries(sp)).len() == 0))
                    &&& (e is IoError || e is NoPackages)
                    &&& (e matches VenvError::IoError(m) ==> m@ == self.path@)
                },
            },
    {
        let sp = match self.site_packages() {
            Some(sp) => sp,
            None => {
                return Err(VenvError::IoError(self.path.clone()));
            },
        };
        let entries = match sp {
            FsNode::Dir { entries, .. } => entries,
            _ => {
                return Err(VenvError::IoError(self.path.clone()));
            },
        };
        let (dist_info_packages, package_dirs) = crate::utils::get_packages(entries);
        proof {
            crate::utils::lemma_sort_lex_len(manifest_names(dir_entries(*sp)));
        }
        if dist_info_packages.len() == 0 {
            return Err(VenvError::NoPackages);
        }
        Ok(
            VenvParser {
                dist_info_packages: Some(dist_info_packages),
                package_dirs: Some(package_dirs),
                ..self
            },
        )
    }

    /// The cheap staleness probe: the most recent modification timestamp
    /// among the site-packages entries with a `.dist-info` extension, read
    /// from the entries themselves without descending into them. Fails with
    /// `StaleProbeFailure` when the site-packages directory is gone.
    pub fn recent_dist_info_modification(&self) -> (r: Result<u64, VenvError>)
        ensures
            match r {
                Ok(t) => {
                    &&& site_packages_node(self.root, self.platform) matches Some(sp)
                    &&& t == recent_mod_spec(dir_entries(sp))
                },
                Err(e) => {
                    &&& site_packages_node(self.root, self.platform) is None
                    &&& e matches VenvError::StaleProbeFailure(m) && m@ == self.path@
                },
            },
    {
        let sp = match self.site_packages() {
            Some(sp) => sp,
            None => {
                return Err(VenvError::StaleProbeFailure(self.path.clone()));
            },
        };
        let entries = match sp {
            FsNode::Dir { entries, .. } => entries,
            _ => {
                return Err(VenvError::StaleProbeFailure(self.path.clone()));
            },
        };
        let mut latest: u64 = 0;
        let mut i: usize = 0;
        let n = entries.len();
        proof {
            assert(entries@.take(0) =~= Seq::<FsNode>::empty());
        }
        let ext_len = ".dist-info".unicode_len();
        while i < n
            invariant
                0 <= i <= n,
                n == entries@.len(),
                ext_len == ".dist-info"@.len(),
                latest == recent_mod_spec(entries@.take(i as int)),
            decreases n - i,
        {
            proof {
                assert(entries@.take(i + 1).drop_last() =~= entries@.take(i as int));
                assert(entries@.take(i + 1).last() == entries@[i as int]);
            }
            let entry = &entries[i];
            let name = entry.name_str();
            if crate::strutil::ends_with(name, ".dist-info") && name.unicode_len() > ext_len {
                let m = entry.mtime();
                if m > latest {
                    latest = m;
                }
            }
            i = i + 1;
        }
        proof {
            assert(entries@.take(n as int) =~= entries@);
        }
        Ok(latest)
    }
}

/// The manifest text found inside a manifest directory node, if readable.
pub open spec fn metadata_text_of(dnode: FsNode) -> Option<Seq<char>> {
    if dnode is Dir {
        match find_entry_spec(dir_entries(dnode), "METADATA"@) {
            Some(n) => match n {
                FsNode::File { content, .. } => match content {
                    Some(c) => Some(c@),
                    None => None,
                },
                _ => None,
            },
            None => None,
        }
    } else {
        None
    }
}

/// The manifest text reachable through the site-packages entry named `di`.
pub open spec fn pair_metadata_text(entries: Seq<FsNode>, di: Seq<char>) -> Option<Seq<char>> {
    match find_entry_spec(entries, di) {
        Some(d) => metadata_text_of(d),
        None => None,
    }
}

/// The record a package falls back to when its manifest cannot be read.
pub open spec fn empty_metadata_view() -> MetadataView {
    MetadataView {
        name: Seq::empty(),
        version: Seq::empty(),
        summary: Seq::empty(),
        dependencies: None,
    }
}

/// The metadata of one pairing row: parsed from the manifest's text where
/// readable, empty otherwise.
pub open spec fn pair_metadata(entries: Seq<FsNode>, di: Option<Seq<char>>) -> MetadataView {
    match di {
        Some(d) => match pair_metadata_text(entries, d) {
            Some(t) => metadata_of_text(t),
            None => empty_metadata_view(),
        },
        None => empty_metadata_view(),
    }
}

/// The recursive size of the site-packages entry named `name`, `0` where
/// the name is absent.
pub open spec fn entry_size(entries: Seq<FsNode>, name: Option<Seq<char>>) -> nat {
    match name {
        Some(nm) => match find_entry_spec(entries, nm) {
            Some(n) => node_size(n),
            None => 0,
        },
        None => 0,
    }
}

/// The modification timestamp a pairing row records: the manifest
/// directory's own, or `now` for a row without one.
pub open spec fn pair_mtime(entries: Seq<FsNode>, di: Option<Seq<char>>, now: u64) -> u64 {
    match di {
        Some(d) => match find_entry_spec(entries, d) {
            Some(n) => node_mtime(n),
            None => 0u64,
        },
        None => now,
    }
}

/// The package record of one pairing row.
pub open spec fn package_of_pair(
    entries: Seq<FsNode>,
    pair: (Option<Seq<char>>, Option<Seq<char>>),
    now: u64,
) -> PackageView {
    let md = pair_metadata(entries, pair.1);
    PackageView {
        name: md.name,
        version: md.version,
        size: (entry_size(entries, pair.0) + entry_size(entries, pair.1)) as u64,
        metadata: md,
        last_modified: pair_mtime(entries, pair.1, now),
    }
}

/// All package records of a pairing, in pairing order.
pub open spec fn packages_of_pairs(
    entries: Seq<FsNode>,
    pairs: Seq<(Option<Seq<char>>, Option<Seq<char>>)>,
    now: u64,
) -> Seq<PackageView> {
    pairs.map_values(|pr: (Option<Seq<char>>, Option<Seq<char>>)| package_of_pair(entries, pr, now))
}

/// Counts toward `num_dist_info_packages`: a row whose manifest was matched
/// and whose metadata text could be read.
pub open spec fn pair_installed(
    entries: Seq<FsNode>,
    pair: (Option<Seq<char>>, Option<Seq<char>>),
) -> bool {
    match pair.1 {
        Some(d) => pair_metadata_text(entries, d) is Some,
        None => false,
    }
}

/// How many rows of the pairing count as installed packages.
pub open spec fn installed_count(
    entries: Seq<FsNode>,
    pairs: Seq<(Option<Seq<char>>, Option<Seq<char>>)>,
) -> int
    decreases pairs,
{
    if pairs.len() == 0 {
        0
    } else {
        installed_count(entries, pairs.drop_last()) + if pair_installed(entries, pairs.last()) {
            1int
        } else {
            0int
        }
    }
}

/// The manifest names whose metadata could not be read: the parse's
/// warnings, one per affected row.
pub open spec fn warn_names(
    entries: Seq<FsNode>,
    pairs: Seq<(Option<Seq<char>>, Option<Seq<char>>)>,
) -> Seq<Seq<char>>
    decreases pairs,
{
    if pairs.len() == 0 {
        Seq::empty()
    } else {
        let rest = warn_names(entries, pairs.drop_last());
        match pairs.last().1 {
            Some(d) => if pair_metadata_text(entries, d) is None {
                rest.push(d)
            } else {
                rest
            },
            None => rest,
        }
    }
}

/// The full pairing of an environment snapshot.
pub open spec fn venv_pairs(root: FsNode, plat: Platform) -> Seq<
    (Option<Seq<char>>, Option<Seq<char>>),
> {
    let entries = dir_entries(site_packages_node(root, plat)->Some_0);
    crate::utils::package_pairs_spec(
        sort_lex(manifest_names(entries)),
        sort_lex(crate::utils::package_names(entries)),
    )
}

/// What a successful parse of an environment snapshot yields.
pub open spec fn venv_spec(root: FsNode, path: Seq<char>, plat: Platform, now: u64) -> VenvView {
    let sp = site_packages_node(root, plat)->Some_0;
    let entries = dir_entries(sp);
    let pairs = venv_pairs(root, plat);
    VenvView {
        name: file_stem_spec(path),
        version: version_of_cfg(config_text_spec(root)->Some_0)->Some_0,
        size: node_size(root) as u64,
        packages: packages_of_pairs(entries, pairs, now),
        num_dist_info_packages: installed_count(entries, pairs),
        binaries: join_path_spec(path, bin_dir_name_spec(plat)),
        path: path,
    }
}

proof fn lemma_site_packages_size_le(root: FsNode, plat: Platform)
    requires
        site_packages_node(root, plat) is Some,
    ensures
        site_packages_node(root, plat) matches Some(sp) && node_size(sp) <= node_size(root) && sp
            is Dir,
{
    let lib = find_entry_spec(dir_entries(root), lib_dir_name_spec(plat))->Some_0;
    crate::fstree::lemma_find_entry_size_le(dir_entries(root), lib_dir_name_spec(plat));
    assert(node_size(lib) <= node_size(root));
    let base = if plat is Windows {
        lib
    } else {
        first_dir_spec(dir_entries(lib))->Some_0
    };
    if !(plat is Windows) {
        crate::utils::lemma_first_dir_spec_mem(dir_entries(lib));
        crate::utils::lemma_first_dir_spec_is_dir(dir_entries(lib));
        let i = choose|i: int|
            0 <= i < dir_entries(lib).len() && dir_entries(lib)[i] == base;
        crate::fstree::lemma_size_sum_elem_le(dir_entries(lib), i);
        assert(node_size(lib) == size_sum(dir_entries(lib)));
    }
    assert(base is Dir);
    assert(node_size(base) <= node_size(lib));
    crate::fstree::lemma_find_entry_size_le(dir_entries(base), "site-packages"@);
    let sp = site_packages_node(root, plat)->Some_0;
    assert(node_size(base) == size_sum(dir_entries(base)));
    assert(node_size(sp) <= node_size(base));
    assert(node_size(root) == size_sum(dir_entries(root)));
}

proof fn lemma_pair_size_bound(
    entries: Seq<FsNode>,
    a: Option<Seq<char>>,
    b: Option<Seq<char>>,
)
    requires
        (a matches Some(an) && b matches Some(bn)) ==> a->Some_0 != b->Some_0,
    ensures
        entry_size(entries, a) + entry_size(entries, b) <= size_sum(entries),
{
    crate::fstree::lemma_find_entry_spec_mem(entries, a->Some_0);
    crate::fstree::lemma_find_entry_spec_mem(entries, b->Some_0);
    match a {
        Some(an) => {
            match find_entry_spec(entries, an) {
                Some(na) => {
                    let i = choose|i: int|
                        0 <= i < entries.len() && entries[i] == na && node_name(na) == an;
                    match b {
                        Some(bn) => {
                            match find_entry_spec(entries, bn) {
                                Some(nb) => {
                                    let j = choose|j: int|
                                        0 <= j < entries.len() && entries[j] == nb && node_name(
                                            nb,
                                        ) == bn;
                                    assert(i != j);
                                    crate::fstree::lemma_size_sum_two_le(entries, i, j);
                                },
                                None => {
                                    crate::fstree::lemma_size_sum_elem_le(entries, i);
                                },
                            }
                        },
                        None => {
                            crate::fstree::lemma_size_sum_elem_le(entries, i);
                        },
                    }
                },
                None => {
                    lemma_pair_size_bound_right(entries, b);
                },
            }
        },
        None => {
            lemma_pair_size_bound_right(entries, b);
        },
    }
}

proof fn lemma_pair_size_bound_right(entries: Seq<FsNode>, b: Option<Seq<char>>)
    ensures
        entry_size(entries, b) <= size_sum(entries),
{
    crate::fstree::lemma_find_entry_spec_mem(entries, b->Some_0);
    match b {
        Some(bn) => {
            match find_entry_spec(entries, bn) {
                Some(nb) => {
                    let j = choose|j: int|
                        0 <= j < entries.len() && entries[j] == nb && node_name(nb) == bn;
                    crate::fstree::lemma_size_sum_elem_le(entries, j);
                },
                None => {},
            }
        },
        None => {},
    }
}

/// A fresh empty metadata record, the soft-failure fallback.
fn empty_metadata() -> (r: Metadata)
    ensures
        r@ == empty_metadata_view(),
        r.wf(),
{
    let r = Metadata {
        name: String::new(),
        version: String::new(),
        summary: String::new(),
        dependencies: None,
    };
    proof {
        assert(r@.name =~= empty_metadata_view().name);
        assert(r@.version =~= empty_metadata_view().version);
        assert(r@.summary =~= empty_metadata_view().summary);
    }
    r
}

impl VenvParser {
    /// Has `parse_version` succeeded on this state?
    pub open spec fn version_parsed(&self) -> bool {
        &&& config_text_spec(self.root) is Some
        &&& self.version matches Some(v) && version_of_cfg(config_text_spec(self.root)->Some_0)
            == Some(v@)
    }

    /// Has `discover_packages` succeeded on this state?
    pub open spec fn packages_discovered(&self) -> bool {
        &&& site_packages_node(self.root, self.platform) matches Some(sp) && ({
            &&& manifest_names(dir_entries(sp)).len() > 0
            &&& self.dist_info_packages matches Some(d) && d.deep_view() == sort_lex(
                manifest_names(dir_entries(sp)),
            )
            &&& self.package_dirs matches Some(pd) && pd.deep_view() == sort_lex(
                crate::utils::package_names(dir_entries(sp)),
            )
        })
    }

    /// The entries of the site-packages directory, if the layout resolves.
    fn site_packages_entries<'a>(&'a self) -> (r: Option<&'a Vec<FsNode>>)
        ensures
            match r {
                Some(es) => site_packages_node(self.root, self.platform) matches Some(sp) && es@
                    == dir_entries(sp),
                None => site_packages_node(self.root, self.platform) is None,
            },
    {
        match self.site_packages() {
            Some(sp) => match sp {
                FsNode::Dir { entries, .. } => Some(entries),
                _ => {
                    proof {
                        assert(false);
                    }
                    None
                },
            },
            None => None,
        }
    }

    /// Builds the full environment record from a discovered state: every
    /// pairing row becomes a package, a row whose manifest text cannot be
    /// read falls back to empty metadata and is reported in the returned
    /// warning list rather than failing the parse, and the environment's
    /// total size is computed over the whole snapshot.
    pub fn parse(self) -> (r: Result<(Venv, Vec<String>), VenvError>)
        requires
            self.version_parsed(),
            self.packages_discovered(),
            node_size(self.root) <= u64::MAX,
        ensures
            r matches Ok(ok) && ({
                &&& ok.0@ == venv_spec(self.root, self.path@, self.platform, self.now)
                &&& ok.0.wf()
                &&& ok.1.deep_view() == warn_names(
                    dir_entries(site_packages_node(self.root, self.platform)->Some_0),
                    venv_pairs(self.root, self.platform),
                )
            }),
    {
        let venv_name = self.venv_name();
        let version = match &self.version {
            Some(v) => v.clone(),
            None => {
                proof {
                    assert(false);
                }
                String::new()
            },
        };
        let binaries = self.binaries_path();
        let dist = match &self.dist_info_packages {
            Some(d) => crate::metadata::clone_string_vec(d),
            None => {
                proof {
                    assert(false);
                }
                Vec::new()
            },
        };
        let pkg_dirs = match &self.package_dirs {
            Some(d) => crate::metadata::clone_string_vec(d),
            None => {
                proof {
                    assert(false);
                }
                Vec::new()
            },
        };
        let pairs = crate::utils::package_pairs(dist, pkg_dirs);
        let entries = match self.site_packages_entries() {
            Some(es) => es,
            None => {
                proof {
                    assert(false);
                }
                return Err(VenvError::NoPackages);
            },
        };
        let ghost sp = site_packages_node(self.root, self.platform)->Some_0;
        let ghost pairs_v = pairs.deep_view();
        proof {
            assert(pairs_v == venv_pairs(self.root, self.platform));
            lemma_site_packages_size_le(self.root, self.platform);
            assert(size_sum(entries@) == node_size(sp));
            let dis = sort_lex(manifest_names(entries@));
            let pkgs = sort_lex(crate::utils::package_names(entries@));
            crate::utils::lemma_manifest_names_are_manifest(entries@);
            crate::utils::lemma_package_names_not_manifest(entries@);
            crate::utils::lemma_sort_lex_contains(manifest_names(entries@));
            crate::utils::lemma_sort_lex_contains(crate::utils::package_names(entries@));
            assert forall|i: int| 0 <= i < dis.len() implies is_manifest_name(
                #[trigger] dis[i],
            ) by {
                assert(dis.contains(dis[i]));
                assert(manifest_names(entries@).contains(dis[i]));
                let j = choose|j: int|
                    0 <= j < manifest_names(entries@).len() && manifest_names(entries@)[j]
                        == dis[i];
                assert(is_manifest_name(manifest_names(entries@)[j]));
            }
            assert forall|i: int| 0 <= i < pkgs.len() implies !is_manifest_name(
                #[trigger] pkgs[i],
            ) by {
                assert(pkgs.contains(pkgs[i]));
                assert(crate::utils::package_names(entries@).contains(pkgs[i]));
                let j = choose|j: int|
                    0 <= j < crate::utils::package_names(entries@).len()
                        && crate::utils::package_names(entries@)[j] == pkgs[i];
                assert(!is_manifest_name(crate::utils::package_names(entries@)[j]));
            }
            crate::utils::lemma_pairs_shape(dis, pkgs);
            assert(pairs_v.take(0) =~= Seq::<(Option<Seq<char>>, Option<Seq<char>>)>::empty());
        }
        let mut packages: Vec<Package> = Vec::new();
        let mut warns: Vec<String> = Vec::new();
        let mut num: usize = 0;
        let n = pairs.len();
        let mut i: usize = 0;
        while i < n
            invariant
                0 <= i <= n,
                n == pairs@.len(),
                pairs.deep_view() == pairs_v,
                site_packages_node(self.root, self.platform) == Some(sp),
                entries@ == dir_entries(sp),
                size_sum(entries@) <= u64::MAX,
                forall|k: int|
                    0 <= k < pairs_v.len() ==> (match (#[trigger] pairs_v[k]).1 {
                        Some(d) => is_manifest_name(d),
                        None => true,
                    } && match pairs_v[k].0 {
                        Some(p) => !is_manifest_name(p),
                        None => true,
                    }),
                packages.deep_view() == packages_of_pairs(entries@, pairs_v.take(i as int), self.now),
                warns.deep_view() == warn_names(entries@, pairs_v.take(i as int)),
                num == installed_count(entries@, pairs_v.take(i as int)),
                num <= i,
                forall|k: int| 0 <= k < packages@.len() ==> (#[trigger] packages@[k]).wf(),
            decreases n - i,
        {
            proof {
                assert(pairs_v.take(i + 1).drop_last() =~= pairs_v.take(i as int));
                assert(pairs_v.take(i + 1).last() == pairs_v[i as int]);
                assert(pairs_v[i as int] == pairs@[i as int].deep_view());
            }
            let pair = &pairs[i];
            let ghost pv = pairs_v[i as int];
            let ghost warns_prev = warns.deep_view();
            let mut md: Metadata = empty_metadata();
            let mut installed: bool = false;
            match &pair.1 {
                Some(d) => {
                    let mut readable: bool = false;
                    match find_entry(entries, d.as_str()) {
                        Some(dnode) => {
                            match dnode {
                                FsNode::Dir { entries: dentries, .. } => {
                                    match find_entry(dentries, "METADATA") {
                                        Some(mnode) => {
                                            match mnode {
                                                FsNode::File { content: Some(t), .. } => {
                                                    md = Metadata::parse_metadata_text(t.as_str());
                                                    installed = true;
                                                    readable = true;
                                                },
                                                _ => {},
                                            }
                                        },
                                        None => {},
                                    }
                                },
                                _ => {},
                            }
                        },
                        None => {},
                    }
                    if !readable {
                        warns.push(d.clone());
                        proof {
                            assert(warns.deep_view() =~= warns_prev.push(pv.1->Some_0));
                        }
                    }
                    proof {
                        assert(md@ == pair_metadata(entries@, pv.1));
                        assert(installed == pair_installed(entries@, pv));
                    }
                },
                None => {
                    proof {
                        assert(md@ == pair_metadata(entries@, pv.1));
                        assert(!pair_installed(entries@, pv));
                    }
                },
            }
            proof {
                lemma_pair_size_bound(entries@, pv.0, pv.1);
                crate::fstree::lemma_find_entry_size_le(entries@, pv.0->Some_0);
                crate::fstree::lemma_find_entry_size_le(entries@, pv.1->Some_0);
            }
            let psize: u64 = match &pair.0 {
                Some(p) => {
                    match find_entry(entries, p.as_str()) {
                        Some(pn) => crate::dir_size::parallel_dir_size(pn),
                        None => 0,
                    }
                },
                None => 0,
            };
            let dsize: u64 = match &pair.1 {
                Some(d) => {
                    match find_entry(entries, d.as_str()) {
                        Some(dn) => crate::dir_size::parallel_dir_size(dn),
                        None => 0,
                    }
                },
                None => 0,
            };
            let total: u64 = psize + dsize;
            let lm: u64 = match &pair.1 {
                Some(d) => {
                    match find_entry(entries, d.as_str()) {
                        Some(dn) => dn.mtime(),
                        None => 0,
                    }
                },
                None => self.now,
            };
            if installed {
                num = num + 1;
            }
            let pname = md.name.clone();
            let pver = md.version.clone();
            let package = crate::model::Package::new(pname.as_str(), pver.as_str(), total, md, lm);
            let ghost packages_prev = packages.deep_view();
            packages.push(package);
            proof {
                assert(package@ == package_of_pair(entries@, pv, self.now));
                assert(packages.deep_view() =~= packages_prev.push(
                    package_of_pair(entries@, pv, self.now),
                ));
                assert(packages_of_pairs(entries@, pairs_v.take(i + 1), self.now)
                    =~= packages_of_pairs(entries@, pairs_v.take(i as int), self.now).push(
                    package_of_pair(entries@, pv, self.now),
                ));
            }
            i = i + 1;
        }
        proof {
            assert(pairs_v.take(n as int) =~= pairs_v);
        }
        let venv_size = crate::dir_size::parallel_dir_size(&self.root);
        let venv = Venv::new(
            venv_name.as_str(),
            version,
            venv_size,
            packages,
            num,
            binaries,
            self.path.clone(),
        );
        proof {
            assert(venv@ =~~= venv_spec(self.root, self.path@, self.platform, self.now));
        }
        Ok((venv, warns))
    }

    /// Runs the whole pipeline over a snapshot: read the config file,
    /// extract the version, discover the packages, and assemble the record.
    pub fn parse_from_dir(root: FsNode, path: String, platform: Platform, now: u64) -> (r: Result<
        (Venv, Vec<String>),
        VenvError,
    >)
        requires
            node_size(root) <= u64::MAX,
        ensures
            match r {
                Ok(ok) => {
                    &&& config_text_spec(root) matches Some(t) && version_of_cfg(t) is Some
                    &&& site_packages_node(root, platform) matches Some(sp) && manifest_names(
                        dir_entries(sp),
                    ).len() > 0
                    &&& ok.0@ == venv_spec(root, path@, platform, now)
                    &&& ok.0.wf()
                    &&& ok.1.deep_view() == warn_names(
                        dir_entries(site_packages_node(root, platform)->Some_0),
                        venv_pairs(root, platform),
                    )
                },
                Err(e) => match e {
                    VenvError::NotFound(m) => config_node_spec(root) is None && m@ == path@,
                    VenvError::IoError(m) => m@ == path@ && (config_text_spec(root) is Some
                        ==> version_of_cfg(config_text_spec(root)->Some_0) is Some
                        && site_packages_node(root, platform) is None),
                    VenvError::ParseError(_) => config_text_spec(root) matches Some(t)
                        && version_of_cfg(t) is None,
                    VenvError::NoPackages => site_packages_node(root, platform) matches Some(sp)
                        && manifest_names(dir_entries(sp)).len() == 0,
                    _ => false,
                },
            },
    {
        let p = VenvParser::new(root, path, platform, now);
        let p = match p.read_config() {
            Ok(p) => p,
            Err(e) => {
                return Err(e);
            },
        };
        let p = match p.parse_version() {
            Ok(p) => p,
            Err(e) => {
                return Err(e);
            },
        };
        let p = match p.discover_packages() {
            Ok(p) => p,
            Err(e) => {
                return Err(e);
            },
        };
        p.parse()
    }
}

proof fn lemma_recent_mod_witness(es: Seq<FsNode>)
    ensures
        recent_mod_spec(es) == 0 || exists|i: int|
            0 <= i < es.len() && dist_info_ext_name(node_name(#[trigger] es[i])) && node_mtime(
                es[i],
            ) == recent_mod_spec(es),
    decreases es,
{
    if es.len() > 0 {
        lemma_recent_mod_witness(es.drop_last());
        let rest = recent_mod_spec(es.drop_last());
        if dist_info_ext_name(node_name(es.last())) && node_mtime(es.last()) > rest {
            assert(node_mtime(es[es.len() - 1]) == recent_mod_spec(es));
        } else {
            if rest != 0 {
                let i = choose|i: int|
                    0 <= i < es.drop_last().len() && dist_info_ext_name(
                        node_name(#[trigger] es.drop_last()[i]),
                    ) && node_mtime(es.drop_last()[i]) == rest;
                assert(es[i] == es.drop_last()[i]);
                assert(dist_info_ext_name(node_name(es[i])));
            }
        }
    }
}

proof fn lemma_ext_is_manifest(n: Seq<char>)
    requires
        dist_info_ext_name(n),
    ensures
        crate::utils::is_manifest_name(n),
{
    reveal_strlit(".dist-info");
    reveal_strlit("dist-info");
    assert(".dist-info"@.len() == 10);
    assert("dist-info"@.len() == 9);
    let w = ".dist-info"@;
    let v = "dist-info"@;
    assert(w =~= n.subrange(n.len() - 10, n.len() as int));
    assert forall|i: int| 0 <= i < 9 implies v[i] == n[n.len() - 9 + i] by {
        assert(w[i + 1] == n[n.len() - 10 + (i + 1)]);
        assert(v[i] == w[i + 1]);
    }
    assert(v =~= n.subrange(n.len() - 9, n.len() as int));
}

/// Law: staleness moves exactly with the manifests. An environment record
/// parsed from a snapshot is never stale against the probe of that same
/// snapshot — re-parsing clears staleness — while a probe answer newer than
/// everything the record saw marks it stale.
pub proof fn lemma_staleness_transition(
    root: FsNode,
    path: Seq<char>,
    plat: Platform,
    now: u64,
    t: u64,
    t2: u64,
)
    requires
        site_packages_node(root, plat) is Some,
        crate::fstree::unique_names(dir_entries(site_packages_node(root, plat)->Some_0)),
        t == recent_mod_spec(dir_entries(site_packages_node(root, plat)->Some_0)),
        t2 > latest_modification_spec(venv_spec(root, path, plat, now).packages),
    ensures
        latest_modification_spec(venv_spec(root, path, plat, now).packages) >= t,
        latest_modification_spec(venv_spec(root, path, plat, now).packages) < t2,
{
    let sp = site_packages_node(root, plat)->Some_0;
    let entries = dir_entries(sp);
    let vv = venv_spec(root, path, plat, now);
    let dis = sort_lex(manifest_names(entries));
    let pkgs = sort_lex(crate::utils::package_names(entries));
    let pairs = venv_pairs(root, plat);
    lemma_recent_mod_witness(entries);
    if t != 0 {
        let i = choose|i: int|
            0 <= i < entries.len() && dist_info_ext_name(node_name(#[trigger] entries[i]))
                && node_mtime(entries[i]) == t;
        let d = node_name(entries[i]);
        lemma_ext_is_manifest(d);
        crate::utils::lemma_manifest_names_complete(entries, i);
        crate::utils::lemma_sort_lex_contains(manifest_names(entries));
        assert(dis.contains(d));
        crate::utils::lemma_every_manifest_paired(dis, pkgs, d);
        let j = choose|j: int| 0 <= j < pairs.len() && #[trigger] pairs[j].1 == Some(d);
        crate::fstree::lemma_find_entry_unique(entries, i);
        assert(find_entry_spec(entries, d) == Some(entries[i]));
        assert(vv.packages[j] == package_of_pair(entries, pairs[j], now));
        assert(vv.packages[j].last_modified == t);
        crate::model::lemma_latest_modification_ge(vv.packages, j);
    }
}

/// Reads and parses the `METADATA` file inside a manifest directory node.
/// Fails with `NotFound` when the node is no directory or holds no entry of
/// that name, and with `IoError` when the entry's text is not available.
pub fn parse_metadata(dist_info: &FsNode) -> (r: Result<Metadata, VenvError>)
    ensures
        match r {
            Ok(md) => {
                &&& metadata_text_of(*dist_info) matches Some(t)
                &&& md@ == metadata_of_text(t)
                &&& md.wf()
            },
            Err(e) => {
                &&& metadata_text_of(*dist_info) is None
                &&& (e is NotFound <==> (!(*dist_info is Dir) || find_entry_spec(
                    dir_entries(*dist_info),
                    "METADATA"@,
                ) is None))
                &&& (e is NotFound || e is IoError)
                &&& (e matches VenvError::NotFound(m) ==> m@ == node_name(*dist_info))
                &&& (e matches VenvError::IoError(m) ==> m@ == node_name(*dist_info))
            },
        },
{
    match dist_info {
        FsNode::Dir { entries, .. } => {
            match find_entry(entries, "METADATA") {
                Some(node) => {
                    match node {
                        FsNode::File { content: Some(t), .. } => Ok(
                            Metadata::parse_metadata_text(t.as_str()),
                        ),
                        _ => Err(VenvError::IoError(dist_info.name_str().to_owned())),
                    }
                },
                None => Err(VenvError::NotFound(dist_info.name_str().to_owned())),
            }
        },
        _ => Err(VenvError::NotFound(dist_info.name_str().to_owned())),
    }
}

} // verus!
