//! Package identities and the single ordering used throughout the analysis:
//! names in ordinal (code point) order, then versions newest first.
use vstd::prelude::*;

verus! {

/// A resolved version. Two versions are the same when every field is.
///
/// Precedence: higher `major`, `minor`, `patch` (in that order) is newer; at
/// equal numbers a release (empty `pre`) is newer than a pre-release; then the
/// pre-release text, and then the build text, compared ordinally, the larger
/// being newer.
#[derive(Clone, Debug, PartialEq, Eq)]
pub struct Version {
    pub major: u64,
    pub minor: u64,
    pub patch: u64,
    pub pre: String,
    pub build: String,
}

/// A node of the dependency graph: a package name at one version.
#[derive(Clone, Debug, PartialEq, Eq)]
pub struct PackageId {
    pub name: String,
    pub version: Version,
}

/// One entry of a lockfile: a package and the packages it depends on directly.
#[derive(Clone, Debug)]
pub struct PackageRecord {
    pub id: PackageId,
    pub deps: Vec<PackageId>,
}

pub type VersionView = (u64, u64, u64, Seq<char>, Seq<char>);

pub type PackageIdView = (Seq<char>, VersionView);

impl View for Version {
    type V = VersionView;

    open spec fn view(&self) -> VersionView {
        (self.major, self.minor, self.patch, self.pre@, self.build@)
    }
}

impl View for PackageId {
    type V = PackageIdView;

    open spec fn view(&self) -> PackageIdView {
        (self.name@, self.version@)
    }
}

impl Version {
    /// A copy of this version.
    pub fn cloned(&self) -> (r: Version)
        ensures
            r@ == self@,
    {
        Version {
            major: self.major,
            minor: self.minor,
            patch: self.patch,
            pre: self.pre.clone(),
            build: self.build.clone(),
        }
    }
}

impl PackageId {
    /// A copy of this identity.
    pub fn cloned(&self) -> (r: PackageId)
        ensures
            r@ == self@,
    {
        PackageId { name: self.name.clone(), version: self.version.cloned() }
    }
}

/// `a` and `b` agree below `k`, and `k` is where `a` comes first: either `a`
/// ends there and `b` goes on, or `a`'s character there is the smaller.
pub open spec fn first_less_at(a: Seq<char>, b: Seq<char>, k: int) -> bool {
    &&& 0 <= k <= a.len()
    &&& k <= b.len()
    &&& forall|j: int| 0 <= j < k ==> a[j] == b[j]
    &&& (k == a.len() && k < b.len()) || (k < a.len() && k < b.len() && a[k] < b[k])
}

/// Ordinal (code point, then length) order on text.
pub open spec fn text_lt(a: Seq<char>, b: Seq<char>) -> bool {
    exists|k: int| #[trigger] first_less_at(a, b, k)
}

/// `a` takes precedence over (is newer than) `b`.
pub open spec fn version_newer(a: VersionView, b: VersionView) -> bool {
    if a.0 != b.0 {
        a.0 > b.0
    } else if a.1 != b.1 {
        a.1 > b.1
    } else if a.2 != b.2 {
        a.2 > b.2
    } else if a.3 != b.3 {
        if a.3.len() == 0 {
            true
        } else if b.3.len() == 0 {
            false
        } else {
            text_lt(b.3, a.3)
        }
    } else {
        text_lt(b.4, a.4)
    }
}

/// The analysis order: `a` comes before `b` when its name is ordinally
/// smaller, or the names are equal and `a`'s version is newer.
pub open spec fn id_before(a: PackageIdView, b: PackageIdView) -> bool {
    text_lt(a.0, b.0) || (a.0 == b.0 && version_newer(a.1, b.1))
}

pub proof fn lemma_text_lt_irreflexive(a: Seq<char>)
    ensures
        !text_lt(a, a),
{
}

pub proof fn lemma_text_lt_transitive(a: Seq<char>, b: Seq<char>, c: Seq<char>)
    requires
        text_lt(a, b),
        text_lt(b, c),
    ensures
        text_lt(a, c),
{
    let k1 = choose|k: int| first_less_at(a, b, k);
    let k2 = choose|k: int| first_less_at(b, c, k);
    if k1 <= k2 {
        assert(first_less_at(a, c, k1));
    } else {
        assert(first_less_at(a, c, k2));
    }
}

pub proof fn lemma_text_lt_asymmetric(a: Seq<char>, b: Seq<char>)
    requires
        text_lt(a, b),
    ensures
        !text_lt(b, a),
{
    if text_lt(b, a) {
        lemma_text_lt_transitive(a, b, a);
    }
}

pub proof fn lemma_version_newer_transitive(a: VersionView, b: VersionView, c: VersionView)
    requires
        version_newer(a, b),
        version_newer(b, c),
    ensures
        version_newer(a, c),
{
    if a.0 == c.0 && a.1 == c.1 && a.2 == c.2 && a.0 == b.0 && a.1 == b.1 && a.2 == b.2 {
        if a.3 == b.3 && b.3 == c.3 {
            lemma_text_lt_transitive(c.4, b.4, a.4);
        } else if a.3 != b.3 && b.3 != c.3 && a.3.len() > 0 && b.3.len() > 0 && c.3.len() > 0 {
            lemma_text_lt_transitive(c.3, b.3, a.3);
            if a.3 == c.3 {
                lemma_text_lt_irreflexive(a.3);
            }
        } else {
            if a.3.len() == 0 && c.3.len() == 0 {
                assert(a.3 =~= c.3);
            }
            if a.3.len() == 0 && b.3.len() == 0 {
                assert(a.3 =~= b.3);
            }
            if b.3.len() == 0 && c.3.len() == 0 {
                assert(b.3 =~= c.3);
            }
        }
    }
}

pub proof fn lemma_id_before_irreflexive(a: PackageIdView)
    ensures
        !id_before(a, a),
{
}

pub proof fn lemma_id_before_transitive(a: PackageIdView, b: PackageIdView, c: PackageIdView)
    requires
        id_before(a, b),
        id_before(b, c),
    ensures
        id_before(a, c),
{
    if text_lt(a.0, b.0) && text_lt(b.0, c.0) {
        lemma_text_lt_transitive(a.0, b.0, c.0);
    } else if a.0 == b.0 && b.0 == c.0 {
        lemma_version_newer_transitive(a.1, b.1, c.1);
    }
}

proof fn lemma_text_lt_total_from(a: Seq<char>, b: Seq<char>, k: int)
    requires
        0 <= k <= a.len(),
        k <= b.len(),
        forall|j: int| 0 <= j < k ==> a[j] == b[j],
        a != b,
    ensures
        text_lt(a, b) || text_lt(b, a),
    decreases a.len() - k,
{
    if k == a.len() && k == b.len() {
        assert(a =~= b);
    } else if k == a.len() {
        assert(first_less_at(a, b, k));
    } else if k == b.len() {
        assert(first_less_at(b, a, k));
    } else if a[k] != b[k] {
        if a[k] < b[k] {
            assert(first_less_at(a, b, k));
        } else {
            assert(first_less_at(b, a, k));
        }
    } else {
        lemma_text_lt_total_from(a, b, k + 1);
    }
}

/// Of two different texts, one comes first.
pub proof fn lemma_text_lt_total(a: Seq<char>, b: Seq<char>)
    requires
        a != b,
    ensures
        text_lt(a, b) || text_lt(b, a),
{
    lemma_text_lt_total_from(a, b, 0);
}

/// Of two different identities, one comes first in the analysis order.
pub proof fn lemma_id_before_total(a: PackageIdView, b: PackageIdView)
    requires
        a != b,
    ensures
        id_before(a, b) || id_before(b, a),
{
    if a.0 != b.0 {
        lemma_text_lt_total(a.0, b.0);
    } else {
        let (x, y) = (a.1, b.1);
        if x.0 == y.0 && x.1 == y.1 && x.2 == y.2 {
            if x.3 != y.3 {
                if x.3.len() > 0 && y.3.len() > 0 {
                    lemma_text_lt_total(x.3, y.3);
                }
            } else {
                lemma_text_lt_total(x.4, y.4);
            }
        }
    }
}

/// Ordinal comparison of two texts.
pub fn text_less(a: &str, b: &str) -> (r: bool)
    ensures
        r == text_lt(a@, b@),
{
    let la = a.unicode_len();
    let lb = b.unicode_len();
    let mut i: usize = 0;
    while i < la && i < lb
        invariant
            la == a@.len(),
            lb == b@.len(),
            i <= la,
            i <= lb,
            forall|j: int| 0 <= j < i ==> a@[j] == b@[j],
        decreases la - i,
    {
        let ca = a.get_char(i);
        let cb = b.get_char(i);
        if ca != cb {
            let r = ca < cb;
            proof {
                if r {
                    assert(first_less_at(a@, b@, i as int));
                } else {
                    assert forall|k: int| !first_less_at(a@, b@, k) by {
                        if first_less_at(a@, b@, k) && k > i {
                            assert(a@[i as int] == b@[i as int]);
                        }
                    }
                }
            }
            return r;
        }
        i = i + 1;
    }
    let r = la < lb;
    proof {
        if r {
            assert(first_less_at(a@, b@, i as int));
        }
    }
    r
}

/// Whether two versions are the same version.
pub fn same_version(a: &Version, b: &Version) -> (r: bool)
    ensures
        r == (a@ == b@),
{
    a.major == b.major && a.minor == b.minor && a.patch == b.patch && a.pre == b.pre && a.build
        == b.build
}

/// Whether `a` takes precedence over `b`.
pub fn is_newer(a: &Version, b: &Version) -> (r: bool)
    ensures
        r == version_newer(a@, b@),
{
    if a.major != b.major {
        a.major > b.major
    } else if a.minor != b.minor {
        a.minor > b.minor
    } else if a.patch != b.patch {
        a.patch > b.patch
    } else if a.pre != b.pre {
        if a.pre.unicode_len() == 0 {
            true
        } else if b.pre.unicode_len() == 0 {
            false
        } else {
            text_less(b.pre.as_str(), a.pre.as_str())
        }
    } else {
        text_less(b.build.as_str(), a.build.as_str())
    }
}

/// Whether two identities are the same package at the same version.
pub fn same_id(a: &PackageId, b: &PackageId) -> (r: bool)
    ensures
        r == (a@ == b@),
{
    a.name == b.name && same_version(&a.version, &b.version)
}

/// Whether `a` comes before `b` in the analysis order.
pub fn comes_before(a: &PackageId, b: &PackageId) -> (r: bool)
    ensures
        r == id_before(a@, b@),
{
    if text_less(a.name.as_str(), b.name.as_str()) {
        true
    } else if a.name == b.name {
        is_newer(&a.version, &b.version)
    } else {
        false
    }
}

} // verus!
