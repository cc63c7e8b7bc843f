//! The environment and package records that a parse produces.

use vstd::prelude::*;
use vstd::string::*;

use crate::metadata::{Metadata, MetadataView};

verus! {

/// One installed package: its identity, its combined size, its parsed
/// metadata and the modification timestamp used for staleness checks.
#[derive(Debug, PartialEq, Eq)]
pub struct Package {
    pub name: String,
    pub version: String,
    pub size: u64,
    pub metadata: Metadata,
    pub last_modified: u64,
}

/// The mathematical shape of a `Package`.
pub ghost struct PackageView {
    pub name: Seq<char>,
    pub version: Seq<char>,
    pub size: u64,
    pub metadata: MetadataView,
    pub last_modified: u64,
}

impl View for Package {
    type V = PackageView;

    open spec fn view(&self) -> PackageView {
        PackageView {
            name: self.name@,
            version: self.version@,
            size: self.size,
            metadata: self.metadata@,
            last_modified: self.last_modified,
        }
    }
}

impl DeepView for Package {
    type V = PackageView;

    open spec fn deep_view(&self) -> PackageView {
        self@
    }
}

impl Package {
    pub open spec fn wf(&self) -> bool {
        self.metadata.wf()
    }

    pub fn new(name: &str, version: &str, size: u64, metadata: Metadata, last_modified: u64) -> (r:
        Self)
        ensures
            r@.name == name@,
            r@.version == version@,
            r@.size == size,
            r@.metadata == metadata@,
            r@.last_modified == last_modified,
            r.wf() == metadata.wf(),
    {
        Package {
            name: name.to_owned(),
            version: version.to_owned(),
            size,
            metadata,
            last_modified,
        }
    }
}

impl Clone for Package {
    fn clone(&self) -> (r: Self)
        ensures
            r@ == self@,
            r.wf() == self.wf(),
    {
        Package {
            name: self.name.clone(),
            version: self.version.clone(),
            size: self.size,
            metadata: self.metadata.clone(),
            last_modified: self.last_modified,
        }
    }
}

/// One discovered virtual environment.
#[derive(Debug, PartialEq, Eq)]
pub struct Venv {
    pub name: String,
    pub version: String,
    pub size: u64,
    pub packages: Vec<Package>,
    pub num_dist_info_packages: usize,
    pub binaries: String,
    pub path: String,
}

/// The mathematical shape of a `Venv`.
pub ghost struct VenvView {
    pub name: Seq<char>,
    pub version: Seq<char>,
    pub size: u64,
    pub packages: Seq<PackageView>,
    pub num_dist_info_packages: int,
    pub binaries: Seq<char>,
    pub path: Seq<char>,
}

impl View for Venv {
    type V = VenvView;

    open spec fn view(&self) -> VenvView {
        VenvView {
            name: self.name@,
            version: self.version@,
            size: self.size,
            packages: self.packages.deep_view(),
            num_dist_info_packages: self.num_dist_info_packages as int,
            binaries: self.binaries@,
            path: self.path@,
        }
    }
}

impl Venv {
    pub open spec fn wf(&self) -> bool {
        forall|i: int| 0 <= i < self.packages@.len() ==> (#[trigger] self.packages@[i]).wf()
    }

    pub fn new(
        name: &str,
        version: String,
        size: u64,
        packages: Vec<Package>,
        num_dist_info_packages: usize,
        binaries: String,
        path: String,
    ) -> (r: Self)
        ensures
            r@.name == name@,
            r@.version == version@,
            r@.size == size,
            r@.packages == packages.deep_view(),
            r@.num_dist_info_packages == num_dist_info_packages as int,
            r@.binaries == binaries@,
            r@.path == path@,
            r.packages@ == packages@,
    {
        Venv { name: name.to_owned(), version, size, packages, num_dist_info_packages, binaries, path }
    }

    /// Where the environment's activation scripts live.
    pub fn activation_path(&self) -> (r: String)
        ensures
            r@ == self@.binaries,
    {
        self.binaries.clone()
    }

    /// The path of the environment's Python interpreter, from which a
    /// requirements listing is produced: the binaries directory joined with
    /// the interpreter name, since joining onto an absolute path discards
    /// what came before it.
    pub fn requirements(&self) -> (r: String)
        ensures
            r@ == join_path_spec(join_path_spec(self@.name, self@.binaries), "python"@),
    {
        let a = join_path(self.name.as_str(), self.binaries.as_str());
        join_path(a.as_str(), "python")
    }

    /// The greatest `last_modified` among the packages, `0` with none; the
    /// cached side of every staleness comparison.
    pub fn latest_package_modification(&self) -> (r: u64)
        ensures
            r == latest_modification_spec(self.packages.deep_view()),
    {
        let mut latest: u64 = 0;
        let mut i: usize = 0;
        proof {
            assert(self.packages.deep_view().take(0) =~= Seq::<PackageView>::empty());
        }
        let n = self.packages.len();
        while i < n
            invariant
                0 <= i <= n,
                n == self.packages@.len(),
                latest == latest_modification_spec(self.packages.deep_view().take(i as int)),
            decreases n - i,
        {
            proof {
                let dv = self.packages.deep_view();
                assert(dv.take(i + 1).drop_last() =~= dv.take(i as int));
                assert(dv.take(i + 1).last() == dv[i as int]);
            }
            let m = self.packages[i].last_modified;
            if m > latest {
                latest = m;
            }
            i = i + 1;
        }
        proof {
            assert(self.packages.deep_view().take(n as int) =~= self.packages.deep_view());
        }
        latest
    }
}

/// The greatest `last_modified` of a package sequence, `0` when empty.
pub open spec fn latest_modification_spec(ps: Seq<PackageView>) -> u64
    decreases ps,
{
    if ps.len() == 0 {
        0u64
    } else {
        let rest = latest_modification_spec(ps.drop_last());
        if ps.last().last_modified > rest {
            ps.last().last_modified
        } else {
            rest
        }
    }
}

pub proof fn lemma_latest_modification_ge(ps: Seq<PackageView>, j: int)
    requires
        0 <= j < ps.len(),
    ensures
        latest_modification_spec(ps) >= ps[j].last_modified,
    decreases ps,
{
    if j < ps.len() - 1 {
        assert(ps.drop_last()[j] == ps[j]);
        lemma_latest_modification_ge(ps.drop_last(), j);
    }
}

impl Clone for Venv {
    fn clone(&self) -> (r: Self)
        ensures
            r@ == self@,
            r.wf() == self.wf(),
    {
        let mut packages: Vec<Package> = Vec::new();
        let mut i: usize = 0;
        let n = self.packages.len();
        while i < n
            invariant
                0 <= i <= n,
                n == self.packages@.len(),
                packages@.len() == i,
                forall|j: int|
                    0 <= j < i ==> #[trigger] packages@[j]@ == self.packages@[j]@ && (
                    packages@[j].wf() == self.packages@[j].wf()),
            decreases n - i,
        {
            let ghost prev = packages@;
            let c = self.packages[i].clone();
            packages.push(c);
            proof {
                assert forall|j: int|
                    0 <= j < i + 1 implies #[trigger] packages@[j]@ == self.packages@[j]@ && (
                packages@[j].wf() == self.packages@[j].wf()) by {
                    if j < i {
                        assert(packages@[j] == prev[j]);
                    } else {
                        assert(packages@[j] == c);
                    }
                }
            }
            i = i + 1;
        }
        proof {
            assert(packages.deep_view() =~= self.packages.deep_view());
        }
        let r = Venv {
            name: self.name.clone(),
            version: self.version.clone(),
            size: self.size,
            packages,
            num_dist_info_packages: self.num_dist_info_packages,
            binaries: self.binaries.clone(),
            path: self.path.clone(),
        };
        proof {
            assert(r.packages@ == packages@);
            assert(r.wf() == self.wf()) by {
                if self.wf() {
                    assert forall|k: int| 0 <= k < r.packages@.len() implies (
                    #[trigger] r.packages@[k]).wf() by {
                        assert(packages@[k]@ == self.packages@[k]@);
                        assert(packages@[k].wf() == self.packages@[k].wf());
                        assert(self.packages@[k].wf());
                        assert(r.packages@[k] == packages@[k]);
                    }
                }
                if r.wf() {
                    assert forall|k: int| 0 <= k < self.packages@.len() implies (
                    #[trigger] self.packages@[k]).wf() by {
                        assert(packages@[k]@ == self.packages@[k]@);
                        assert(packages@[k].wf() == self.packages@[k].wf());
                        assert(r.packages@[k] == packages@[k]);
                        assert(r.packages@[k].wf());
                    }
                }
            }
        }
        r
    }
}

/// Is `p` an absolute path, by its first character?
pub open spec fn is_abs_path(p: Seq<char>) -> bool {
    p.len() > 0 && (p[0] == '/' || p[0] == '\\')
}

/// Joining paths: an absolute right-hand side replaces the left, anything
/// else is appended behind a separator; joining onto an empty path keeps the
/// right-hand side alone.
pub open spec fn join_path_spec(a: Seq<char>, b: Seq<char>) -> Seq<char> {
    if is_abs_path(b) || a.len() == 0 {
        b
    } else {
        a + seq!['/'] + b
    }
}

/// Joins two path fragments.
pub fn join_path(a: &str, b: &str) -> (r: String)
    ensures
        r@ == join_path_spec(a@, b@),
{
    let bn = b.unicode_len();
    let abs = bn > 0 && (b.get_char(0) == '/' || b.get_char(0) == '\\');
    if abs || a.unicode_len() == 0 {
        b.to_owned()
    } else {
        let mut r = a.to_owned();
        r.append("/");
        r.append(b);
        proof {
            reveal_strlit("/");
            assert("/"@ =~= seq!['/']);
            assert(r@ =~= a@ + seq!['/'] + b@);
        }
        r
    }
}

} // verus!
