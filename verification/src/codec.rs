//! The cache's on-disk record format: a length-prefixed binary encoding of
//! environment records, with decoding proved to invert encoding.
//!
//! The layout is an internal contract between saving and loading: integers
//! are eight little-endian bytes, strings a byte length followed by UTF-8,
//! lists a count followed by the elements, and an optional dependency list a
//! tag byte followed by the list where present.

use vstd::prelude::*;
use vstd::bytes::{
    lemma_auto_spec_u64_to_from_le_bytes, spec_u64_from_le_bytes, spec_u64_to_le_bytes,
    u64_from_le_bytes, u64_to_le_bytes,
};
use vstd::slice::{slice_subrange, slice_to_vec};
use vstd::string::*;
use vstd::utf8::{decode_utf8, encode_utf8, valid_utf8};

use crate::error::VenvError;
use crate::metadata::{Metadata, MetadataView};
use crate::model::{Package, PackageView, Venv, VenvView};

verus! {

broadcast use vstd::string::group_string_axioms;

/// Eight little-endian bytes.
pub open spec fn enc_u64(x: u64) -> Seq<u8> {
    spec_u64_to_le_bytes(x)
}

/// A byte length followed by the UTF-8 bytes.
pub open spec fn enc_str(s: Seq<char>) -> Seq<u8> {
    enc_u64(encode_utf8(s).len() as u64) + encode_utf8(s)
}

/// The encodings of the list elements, in order.
pub open spec fn enc_str_list(ds: Seq<Seq<char>>) -> Seq<u8>
    decreases ds,
{
    if ds.len() == 0 {
        Seq::empty()
    } else {
        enc_str(ds[0]) + enc_str_list(ds.drop_first())
    }
}

/// A tag byte, then for a present list its count and elements.
pub open spec fn enc_opt_deps(d: Option<Seq<Seq<char>>>) -> Seq<u8> {
    match d {
        None => seq![0u8],
        Some(ds) => seq![1u8] + enc_u64(ds.len() as u64) + enc_str_list(ds),
    }
}

pub open spec fn enc_metadata(m: MetadataView) -> Seq<u8> {
    enc_str(m.name) + enc_str(m.version) + enc_str(m.summary) + enc_opt_deps(m.dependencies)
}

pub open spec fn enc_package(p: PackageView) -> Seq<u8> {
    enc_str(p.name) + enc_str(p.version) + enc_u64(p.size) + enc_metadata(p.metadata) + enc_u64(
        p.last_modified,
    )
}

pub open spec fn enc_package_list(ps: Seq<PackageView>) -> Seq<u8>
    decreases ps,
{
    if ps.len() == 0 {
        Seq::empty()
    } else {
        enc_package(ps[0]) + enc_package_list(ps.drop_first())
    }
}

pub open spec fn enc_venv(v: VenvView) -> Seq<u8> {
    enc_str(v.name) + enc_str(v.version) + enc_u64(v.size) + enc_u64(v.packages.len() as u64)
        + enc_package_list(v.packages) + enc_u64(v.num_dist_info_packages as u64) + enc_str(
        v.binaries,
    ) + enc_str(v.path)
}

/// Reads eight bytes at `pos` as an integer.
pub open spec fn dec_u64(b: Seq<u8>, pos: int) -> Option<(u64, int)> {
    if 0 <= pos && pos + 8 <= b.len() {
        Some((spec_u64_from_le_bytes(b.subrange(pos, pos + 8)), pos + 8))
    } else {
        None
    }
}

/// Reads a length-prefixed UTF-8 string at `pos`.
pub open spec fn dec_str(b: Seq<u8>, pos: int) -> Option<(Seq<char>, int)> {
    match dec_u64(b, pos) {
        Some((n, p)) => {
            if p + n <= b.len() && valid_utf8(b.subrange(p, p + n)) {
                Some((decode_utf8(b.subrange(p, p + n)), p + n))
            } else {
                None
            }
        },
        None => None,
    }
}

/// Reads `k` consecutive strings at `pos`.
pub open spec fn dec_str_list(b: Seq<u8>, pos: int, k: nat) -> Option<(Seq<Seq<char>>, int)>
    decreases k,
{
    if k == 0 {
        Some((Seq::empty(), pos))
    } else {
        match dec_str(b, pos) {
            Some((s, p)) => match dec_str_list(b, p, (k - 1) as nat) {
                Some((rest, p2)) => Some((seq![s] + rest, p2)),
                None => None,
            },
            None => None,
        }
    }
}

/// Reads an optional dependency list at `pos`.
pub open spec fn dec_opt_deps(b: Seq<u8>, pos: int) -> Option<(Option<Seq<Seq<char>>>, int)> {
    if 0 <= pos < b.len() {
        if b[pos] == 0u8 {
            Some((None, pos + 1))
        } else if b[pos] == 1u8 {
            match dec_u64(b, pos + 1) {
                Some((k, p)) => match dec_str_list(b, p, k as nat) {
                    Some((ds, p2)) => Some((Some(ds), p2)),
                    None => None,
                },
                None => None,
            }
        } else {
            None
        }
    } else {
        None
    }
}

pub open spec fn dec_metadata(b: Seq<u8>, pos: int) -> Option<(MetadataView, int)> {
    match dec_str(b, pos) {
        Some((name, p1)) => match dec_str(b, p1) {
            Some((version, p2)) => match dec_str(b, p2) {
                Some((summary, p3)) => match dec_opt_deps(b, p3) {
                    Some((deps, p4)) => Some(
                        (MetadataView { name, version, summary, dependencies: deps }, p4),
                    ),
                    None => None,
                },
                None => None,
            },
            None => None,
        },
        None => None,
    }
}

pub open spec fn dec_package(b: Seq<u8>, pos: int) -> Option<(PackageView, int)> {
    match dec_str(b, pos) {
        Some((name, p1)) => match dec_str(b, p1) {
            Some((version, p2)) => match dec_u64(b, p2) {
                Some((size, p3)) => match dec_metadata(b, p3) {
                    Some((metadata, p4)) => match dec_u64(b, p4) {
                        Some((last_modified, p5)) => Some(
                            (PackageView { name, version, size, metadata, last_modified }, p5),
                        ),
                        None => None,
                    },
                    None => None,
                },
                None => None,
            },
            None => None,
        },
        None => None,
    }
}

pub open spec fn dec_package_list(b: Seq<u8>, pos: int, k: nat) -> Option<(Seq<PackageView>, int)>
    decreases k,
{
    if k == 0 {
        Some((Seq::empty(), pos))
    } else {
        match dec_package(b, pos) {
            Some((p, q)) => match dec_package_list(b, q, (k - 1) as nat) {
                Some((rest, q2)) => Some((seq![p] + rest, q2)),
                None => None,
            },
            None => None,
        }
    }
}

pub open spec fn dec_venv(b: Seq<u8>, pos: int) -> Option<(VenvView, int)> {
    match dec_str(b, pos) {
        Some((name, p1)) => match dec_str(b, p1) {
            Some((version, p2)) => match dec_u64(b, p2) {
                Some((size, p3)) => match dec_u64(b, p3) {
                    Some((k, p4)) => match dec_package_list(b, p4, k as nat) {
                        Some((packages, p5)) => match dec_u64(b, p5) {
                            Some((num, p6)) => {
                                if num <= usize::MAX as u64 {
                                    match dec_str(b, p6) {
                                        Some((binaries, p7)) => match dec_str(b, p7) {
                                            Some((path, p8)) => Some(
                                                (
                                                    VenvView {
                                                        name,
                                                        version,
                                                        size,
                                                        packages,
                                                        num_dist_info_packages: num as int,
                                                        binaries,
                                                        path,
                                                    },
                                                    p8,
                                                ),
                                            ),
                                            None => None,
                                        },
                                        None => None,
                                    }
                                } else {
                                    None
                                }
                            },
                            None => None,
                        },
                        None => None,
                    },
                    None => None,
                },
                None => None,
            },
            None => None,
        },
        None => None,
    }
}

/// The bounds under which a string's encoding is honest: its byte length
/// fits the length prefix.
pub open spec fn str_encodable(s: Seq<char>) -> bool {
    encode_utf8(s).len() <= u64::MAX
}

pub open spec fn deps_encodable(d: Option<Seq<Seq<char>>>) -> bool {
    match d {
        Some(ds) => ds.len() <= u64::MAX && forall|i: int|
            0 <= i < ds.len() ==> str_encodable(#[trigger] ds[i]),
        None => true,
    }
}

pub open spec fn metadata_encodable(m: MetadataView) -> bool {
    str_encodable(m.name) && str_encodable(m.version) && str_encodable(m.summary)
        && deps_encodable(m.dependencies)
}

pub open spec fn package_encodable(p: PackageView) -> bool {
    str_encodable(p.name) && str_encodable(p.version) && metadata_encodable(p.metadata)
}

pub open spec fn venv_encodable(v: VenvView) -> bool {
    &&& str_encodable(v.name)
    &&& str_encodable(v.version)
    &&& str_encodable(v.binaries)
    &&& str_encodable(v.path)
    &&& v.packages.len() <= u64::MAX
    &&& forall|i: int| 0 <= i < v.packages.len() ==> package_encodable(#[trigger] v.packages[i])
    &&& 0 <= v.num_dist_info_packages <= usize::MAX as int
}

proof fn lemma_frame_part(b: Seq<u8>, pos: int, e: Seq<u8>, off: int, part: Seq<u8>)
    requires
        0 <= pos,
        pos + e.len() <= b.len(),
        b.subrange(pos, pos + e.len()) == e,
        0 <= off,
        off + part.len() <= e.len(),
        e.subrange(off, off + part.len()) == part,
    ensures
        b.subrange(pos + off, pos + off + part.len()) == part,
{
    assert forall|i: int|
        0 <= i < part.len() implies b.subrange(pos + off, pos + off + part.len())[i] == part[i] by {
        assert(b.subrange(pos, pos + e.len())[off + i] == b[pos + off + i]);
        assert(e.subrange(off, off + part.len())[i] == e[off + i]);
    }
    assert(b.subrange(pos + off, pos + off + part.len()) =~= part);
}

proof fn lemma_dec_u64_frame(b: Seq<u8>, pos: int, x: u64)
    requires
        0 <= pos,
        pos + 8 <= b.len(),
        b.subrange(pos, pos + 8) == enc_u64(x),
    ensures
        dec_u64(b, pos) == Some((x, pos + 8)),
{
    lemma_auto_spec_u64_to_from_le_bytes();
}

proof fn lemma_dec_str_frame(b: Seq<u8>, pos: int, s: Seq<char>)
    requires
        0 <= pos,
        str_encodable(s),
        pos + enc_str(s).len() <= b.len(),
        b.subrange(pos, pos + enc_str(s).len()) == enc_str(s),
    ensures
        dec_str(b, pos) == Some((s, pos + enc_str(s).len())),
{
    lemma_auto_spec_u64_to_from_le_bytes();
    assert(forall|x: u64| (#[trigger] enc_u64(x)).len() == 8);
    let e = enc_str(s);
    let u = encode_utf8(s);
    let n = u.len() as u64;
    assert(e.subrange(0, 8) =~= enc_u64(n));
    lemma_frame_part(b, pos, e, 0, enc_u64(n));
    assert(b.subrange(pos, pos + 8) == enc_u64(n));
    lemma_dec_u64_frame(b, pos, n);
    assert(e.subrange(8, 8 + u.len() as int) =~= u);
    lemma_frame_part(b, pos, e, 8, u);
    assert(b.subrange(pos + 8, pos + 8 + u.len()) == u);
    vstd::utf8::encode_utf8_valid_utf8(s);
    vstd::utf8::encode_utf8_decode_utf8(s);
}

proof fn lemma_dec_str_list_frame(b: Seq<u8>, pos: int, ds: Seq<Seq<char>>)
    requires
        0 <= pos,
        forall|i: int| 0 <= i < ds.len() ==> str_encodable(#[trigger] ds[i]),
        pos + enc_str_list(ds).len() <= b.len(),
        b.subrange(pos, pos + enc_str_list(ds).len()) == enc_str_list(ds),
    ensures
        dec_str_list(b, pos, ds.len()) == Some((ds, pos + enc_str_list(ds).len())),
    decreases ds,
{
    if ds.len() == 0 {
        assert(ds =~= Seq::<Seq<char>>::empty());
    } else {
        let e = enc_str_list(ds);
        let e0 = enc_str(ds[0]);
        let rest = enc_str_list(ds.drop_first());
        assert(e.subrange(0, e0.len() as int) =~= e0);
        lemma_frame_part(b, pos, e, 0, e0);
        lemma_dec_str_frame(b, pos, ds[0]);
        assert(e.subrange(e0.len() as int, (e0.len() + rest.len()) as int) =~= rest);
        lemma_frame_part(b, pos, e, e0.len() as int, rest);
        assert(forall|i: int|
            0 <= i < ds.drop_first().len() ==> str_encodable(#[trigger] ds.drop_first()[i]));
        lemma_dec_str_list_frame(b, pos + e0.len(), ds.drop_first());
        assert(seq![ds[0]] + ds.drop_first() =~= ds);
    }
}

proof fn lemma_dec_opt_deps_frame(b: Seq<u8>, pos: int, d: Option<Seq<Seq<char>>>)
    requires
        0 <= pos,
        deps_encodable(d),
        pos + enc_opt_deps(d).len() <= b.len(),
        b.subrange(pos, pos + enc_opt_deps(d).len()) == enc_opt_deps(d),
    ensures
        dec_opt_deps(b, pos) == Some((d, pos + enc_opt_deps(d).len())),
{
    lemma_auto_spec_u64_to_from_le_bytes();
    assert(forall|x: u64| (#[trigger] enc_u64(x)).len() == 8);
    let e = enc_opt_deps(d);
    match d {
        None => {
            assert(b.subrange(pos, pos + 1)[0] == b[pos]);
            assert(b[pos] == e[0]);
        },
        Some(ds) => {
            assert(b.subrange(pos, pos + e.len())[0] == b[pos]);
            assert(b[pos] == e[0]);
            assert(e[0] == 1u8);
            let cnt = enc_u64(ds.len() as u64);
            let lst = enc_str_list(ds);
            assert(e.subrange(1, 9) =~= cnt);
            lemma_frame_part(b, pos, e, 1, cnt);
            lemma_dec_u64_frame(b, pos + 1, ds.len() as u64);
            assert(e.subrange(9, 9 + lst.len() as int) =~= lst);
            lemma_frame_part(b, pos, e, 9, lst);
            lemma_dec_str_list_frame(b, pos + 9, ds);
        },
    }
}

proof fn lemma_dec_metadata_frame(b: Seq<u8>, pos: int, m: MetadataView)
    requires
        0 <= pos,
        metadata_encodable(m),
        pos + enc_metadata(m).len() <= b.len(),
        b.subrange(pos, pos + enc_metadata(m).len()) == enc_metadata(m),
    ensures
        dec_metadata(b, pos) == Some((m, pos + enc_metadata(m).len())),
{
    let e = enc_metadata(m);
    let e1 = enc_str(m.name);
    let e2 = enc_str(m.version);
    let e3 = enc_str(m.summary);
    let e4 = enc_opt_deps(m.dependencies);
    let o1 = e1.len() as int;
    let o2 = o1 + e2.len();
    let o3 = o2 + e3.len();
    assert(e.subrange(0, o1) =~= e1);
    lemma_frame_part(b, pos, e, 0, e1);
    lemma_dec_str_frame(b, pos, m.name);
    assert(e.subrange(o1, o2) =~= e2);
    lemma_frame_part(b, pos, e, o1, e2);
    lemma_dec_str_frame(b, pos + o1, m.version);
    assert(e.subrange(o2, o3) =~= e3);
    lemma_frame_part(b, pos, e, o2, e3);
    lemma_dec_str_frame(b, pos + o2, m.summary);
    assert(e.subrange(o3, o3 + e4.len()) =~= e4);
    lemma_frame_part(b, pos, e, o3, e4);
    lemma_dec_opt_deps_frame(b, pos + o3, m.dependencies);
}

proof fn lemma_dec_package_frame(b: Seq<u8>, pos: int, p: PackageView)
    requires
        0 <= pos,
        package_encodable(p),
        pos + enc_package(p).len() <= b.len(),
        b.subrange(pos, pos + enc_package(p).len()) == enc_package(p),
    ensures
        dec_package(b, pos) == Some((p, pos + enc_package(p).len())),
{
    lemma_auto_spec_u64_to_from_le_bytes();
    assert(forall|x: u64| (#[trigger] enc_u64(x)).len() == 8);
    let e = enc_package(p);
    let e1 = enc_str(p.name);
    let e2 = enc_str(p.version);
    let e3 = enc_u64(p.size);
    let e4 = enc_metadata(p.metadata);
    let e5 = enc_u64(p.last_modified);
    let o1 = e1.len() as int;
    let o2 = o1 + e2.len();
    let o3 = o2 + 8;
    let o4 = o3 + e4.len();
    assert(e.subrange(0, o1) =~= e1);
    lemma_frame_part(b, pos, e, 0, e1);
    lemma_dec_str_frame(b, pos, p.name);
    assert(e.subrange(o1, o2) =~= e2);
    lemma_frame_part(b, pos, e, o1, e2);
    lemma_dec_str_frame(b, pos + o1, p.version);
    assert(e.subrange(o2, o3) =~= e3);
    lemma_frame_part(b, pos, e, o2, e3);
    lemma_dec_u64_frame(b, pos + o2, p.size);
    assert(e.subrange(o3, o4) =~= e4);
    lemma_frame_part(b, pos, e, o3, e4);
    lemma_dec_metadata_frame(b, pos + o3, p.metadata);
    assert(e.subrange(o4, o4 + 8) =~= e5);
    lemma_frame_part(b, pos, e, o4, e5);
    lemma_dec_u64_frame(b, pos + o4, p.last_modified);
}

proof fn lemma_dec_package_list_frame(b: Seq<u8>, pos: int, ps: Seq<PackageView>)
    requires
        0 <= pos,
        forall|i: int| 0 <= i < ps.len() ==> package_encodable(#[trigger] ps[i]),
        pos + enc_package_list(ps).len() <= b.len(),
        b.subrange(pos, pos + enc_package_list(ps).len()) == enc_package_list(ps),
    ensures
        dec_package_list(b, pos, ps.len()) == Some((ps, pos + enc_package_list(ps).len())),
    decreases ps,
{
    if ps.len() == 0 {
        assert(ps =~= Seq::<PackageView>::empty());
    } else {
        let e = enc_package_list(ps);
        let e0 = enc_package(ps[0]);
        let rest = enc_package_list(ps.drop_first());
        assert(e.subrange(0, e0.len() as int) =~= e0);
        lemma_frame_part(b, pos, e, 0, e0);
        lemma_dec_package_frame(b, pos, ps[0]);
        assert(e.subrange(e0.len() as int, (e0.len() + rest.len()) as int) =~= rest);
        lemma_frame_part(b, pos, e, e0.len() as int, rest);
        assert(forall|i: int|
            0 <= i < ps.drop_first().len() ==> package_encodable(#[trigger] ps.drop_first()[i]));
        lemma_dec_package_list_frame(b, pos + e0.len(), ps.drop_first());
        assert(seq![ps[0]] + ps.drop_first() =~= ps);
    }
}

/// Law: decoding inverts encoding for any environment record within the
/// format's bounds, trailing data included and left untouched.
#[verifier::rlimit(80)]
pub proof fn lemma_venv_round_trip(b: Seq<u8>, pos: int, v: VenvView)
    requires
        0 <= pos,
        venv_encodable(v),
        pos + enc_venv(v).len() <= b.len(),
        b.subrange(pos, pos + enc_venv(v).len()) == enc_venv(v),
    ensures
        dec_venv(b, pos) == Some((v, pos + enc_venv(v).len())),
{
    lemma_auto_spec_u64_to_from_le_bytes();
    assert(forall|x: u64| (#[trigger] enc_u64(x)).len() == 8);
    let e = enc_venv(v);
    let e1 = enc_str(v.name);
    let e2 = enc_str(v.version);
    let e5 = enc_package_list(v.packages);
    let e7 = enc_str(v.binaries);
    let e8 = enc_str(v.path);
    let o1 = e1.len() as int;
    let o2 = o1 + e2.len();
    let o3 = o2 + 8;
    let o4 = o3 + 8;
    let o5 = o4 + e5.len();
    let o6 = o5 + 8;
    let o7 = o6 + e7.len();
    assert(e.subrange(0, o1) =~= e1);
    lemma_frame_part(b, pos, e, 0, e1);
    lemma_dec_str_frame(b, pos, v.name);
    assert(e.subrange(o1, o2) =~= e2);
    lemma_frame_part(b, pos, e, o1, e2);
    lemma_dec_str_frame(b, pos + o1, v.version);
    assert(e.subrange(o2, o3) =~= enc_u64(v.size));
    lemma_frame_part(b, pos, e, o2, enc_u64(v.size));
    lemma_dec_u64_frame(b, pos + o2, v.size);
    assert(e.subrange(o3, o4) =~= enc_u64(v.packages.len() as u64));
    lemma_frame_part(b, pos, e, o3, enc_u64(v.packages.len() as u64));
    lemma_dec_u64_frame(b, pos + o3, v.packages.len() as u64);
    assert(e.subrange(o4, o5) =~= e5);
    lemma_frame_part(b, pos, e, o4, e5);
    lemma_dec_package_list_frame(b, pos + o4, v.packages);
    assert(e.subrange(o5, o6) =~= enc_u64(v.num_dist_info_packages as u64));
    lemma_frame_part(b, pos, e, o5, enc_u64(v.num_dist_info_packages as u64));
    lemma_dec_u64_frame(b, pos + o5, v.num_dist_info_packages as u64);
    assert(e.subrange(o6, o7) =~= e7);
    lemma_frame_part(b, pos, e, o6, e7);
    lemma_dec_str_frame(b, pos + o6, v.binaries);
    assert(e.subrange(o7, o7 + e8.len()) =~= e8);
    lemma_frame_part(b, pos, e, o7, e8);
    lemma_dec_str_frame(b, pos + o7, v.path);
}

/// Law: decoding inverts encoding for any metadata record within the
/// format's bounds.
pub proof fn lemma_metadata_round_trip(m: MetadataView)
    requires
        metadata_encodable(m),
    ensures
        dec_metadata(enc_metadata(m), 0) == Some((m, enc_metadata(m).len() as int)),
{
    lemma_auto_spec_u64_to_from_le_bytes();
    assert(forall|x: u64| (#[trigger] enc_u64(x)).len() == 8);
    let b = enc_metadata(m);
    assert(b.subrange(0, b.len() as int) =~= b);
    lemma_dec_metadata_frame(b, 0, m);
}

proof fn lemma_enc_str_list_snoc(ds: Seq<Seq<char>>, i: int)
    requires
        0 <= i < ds.len(),
    ensures
        enc_str_list(ds.take(i + 1)) =~= enc_str_list(ds.take(i)) + enc_str(ds[i]),
    decreases i,
{
    if i == 0 {
        assert(ds.take(0) =~= Seq::<Seq<char>>::empty());
        assert(ds.take(1).drop_first() =~= Seq::<Seq<char>>::empty());
    } else {
        lemma_enc_str_list_snoc(ds.drop_first(), i - 1);
        assert(ds.take(i + 1).drop_first() =~= ds.drop_first().take(i));
        assert(ds.take(i).drop_first() =~= ds.drop_first().take(i - 1));
        assert(ds.drop_first()[i - 1] == ds[i]);
    }
}

proof fn lemma_enc_package_list_snoc(ps: Seq<PackageView>, i: int)
    requires
        0 <= i < ps.len(),
    ensures
        enc_package_list(ps.take(i + 1)) =~= enc_package_list(ps.take(i)) + enc_package(ps[i]),
    decreases i,
{
    if i == 0 {
        assert(ps.take(0) =~= Seq::<PackageView>::empty());
        assert(ps.take(1).drop_first() =~= Seq::<PackageView>::empty());
    } else {
        lemma_enc_package_list_snoc(ps.drop_first(), i - 1);
        assert(ps.take(i + 1).drop_first() =~= ps.drop_first().take(i));
        assert(ps.take(i).drop_first() =~= ps.drop_first().take(i - 1));
        assert(ps.drop_first()[i - 1] == ps[i]);
    }
}

/// Appends an integer's encoding.
fn write_u64(out: &mut Vec<u8>, x: u64)
    ensures
        final(out)@ == old(out)@ + enc_u64(x),
{
    let mut v = u64_to_le_bytes(x);
    out.append(&mut v);
}

/// Appends a string's encoding.
fn write_str(out: &mut Vec<u8>, s: &str)
    ensures
        final(out)@ == old(out)@ + enc_str(s@),
{
    let mut bv = s.as_bytes_vec();
    write_u64(out, bv.len() as u64);
    out.append(&mut bv);
    proof {
        assert(final(out)@ =~= old(out)@ + enc_str(s@));
    }
}

/// Appends an optional dependency list's encoding.
fn write_opt_deps(out: &mut Vec<u8>, d: &Option<Vec<String>>)
    ensures
        final(out)@ == old(out)@ + enc_opt_deps(
            match d {
                Some(v) => Some(v.deep_view()),
                None => None,
            },
        ),
{
    match d {
        None => {
            out.push(0u8);
            proof {
                assert(final(out)@ =~= old(out)@ + seq![0u8]);
            }
        },
        Some(v) => {
            let ghost dv = v.deep_view();
            out.push(1u8);
            write_u64(out, v.len() as u64);
            let ghost start = out@;
            proof {
                assert(dv.take(0) =~= Seq::<Seq<char>>::empty());
                assert(out@ =~= start + enc_str_list(dv.take(0)));
            }
            let n = v.len();
            let mut i: usize = 0;
            while i < n
                invariant
                    0 <= i <= n,
                    n == v@.len(),
                    v.deep_view() == dv,
                    out@ == start + enc_str_list(dv.take(i as int)),
                decreases n - i,
            {
                write_str(out, v[i].as_str());
                proof {
                    lemma_enc_str_list_snoc(dv, i as int);
                    assert(out@ =~= start + enc_str_list(dv.take(i + 1)));
                }
                i = i + 1;
            }
            proof {
                assert(dv.take(n as int) =~= dv);
                assert(out@ =~= old(out)@ + (seq![1u8] + enc_u64(v@.len() as u64) + enc_str_list(
                    dv,
                )));
            }
        },
    }
}

/// Appends a metadata record's encoding.
fn write_metadata(out: &mut Vec<u8>, m: &Metadata)
    ensures
        final(out)@ == old(out)@ + enc_metadata(m@),
{
    write_str(out, m.name.as_str());
    write_str(out, m.version.as_str());
    write_str(out, m.summary.as_str());
    write_opt_deps(out, &m.dependencies);
    proof {
        assert(final(out)@ =~= old(out)@ + enc_metadata(m@));
    }
}

/// The byte encoding of one metadata record.
pub fn encode_metadata(m: &Metadata) -> (r: Vec<u8>)
    ensures
        r@ == enc_metadata(m@),
{
    let mut out: Vec<u8> = Vec::new();
    write_metadata(&mut out, m);
    proof {
        assert(out@ =~= enc_metadata(m@));
    }
    out
}

/// Appends a package record's encoding.
fn write_package(out: &mut Vec<u8>, p: &Package)
    ensures
        final(out)@ == old(out)@ + enc_package(p@),
{
    write_str(out, p.name.as_str());
    write_str(out, p.version.as_str());
    write_u64(out, p.size);
    write_metadata(out, &p.metadata);
    write_u64(out, p.last_modified);
    proof {
        assert(final(out)@ =~= old(out)@ + enc_package(p@));
    }
}

/// The byte encoding of one environment record, what a cache file holds.
pub fn encode_venv(v: &Venv) -> (r: Vec<u8>)
    ensures
        r@ == enc_venv(v@),
{
    let mut out: Vec<u8> = Vec::new();
    write_str(&mut out, v.name.as_str());
    write_str(&mut out, v.version.as_str());
    write_u64(&mut out, v.size);
    write_u64(&mut out, v.packages.len() as u64);
    let ghost pv = v.packages.deep_view();
    let ghost start = out@;
    proof {
        assert(pv.take(0) =~= Seq::<PackageView>::empty());
        assert(out@ =~= start + enc_package_list(pv.take(0)));
    }
    let n = v.packages.len();
    let mut i: usize = 0;
    while i < n
        invariant
            0 <= i <= n,
            n == v.packages@.len(),
            v.packages.deep_view() == pv,
            out@ == start + enc_package_list(pv.take(i as int)),
        decreases n - i,
    {
        write_package(&mut out, &v.packages[i]);
        proof {
            lemma_enc_package_list_snoc(pv, i as int);
            assert(out@ =~= start + enc_package_list(pv.take(i + 1)));
        }
        i = i + 1;
    }
    proof {
        assert(pv.take(n as int) =~= pv);
    }
    write_u64(&mut out, v.num_dist_info_packages as u64);
    write_str(&mut out, v.binaries.as_str());
    write_str(&mut out, v.path.as_str());
    proof {
        assert(out@ =~= enc_venv(v@));
    }
    out
}

/// Relies on `String::from_utf8`: it succeeds exactly on valid UTF-8 input
/// and yields the characters that input encodes.
#[verifier::external_body]
fn string_from_utf8(v: Vec<u8>) -> (r: Option<String>)
    ensures
        r is Some <==> valid_utf8(v@),
        r matches Some(s) ==> s@ == decode_utf8(v@),
{
    match String::from_utf8(v) {
        Ok(s) => Some(s),
        Err(_) => None,
    }
}

/// Reads an integer.
fn read_u64(b: &Vec<u8>, pos: usize) -> (r: Option<(u64, usize)>)
    ensures
        match r {
            Some(t) => dec_u64(b@, pos as int) == Some((t.0, t.1 as int)),
            None => dec_u64(b@, pos as int) is None,
        },
{
    if b.len() >= 8 && pos <= b.len() - 8 {
        let s = slice_subrange(b.as_slice(), pos, pos + 8);
        let x = u64_from_le_bytes(s);
        Some((x, pos + 8))
    } else {
        None
    }
}

/// Reads a length-prefixed string.
fn read_str(b: &Vec<u8>, pos: usize) -> (r: Option<(String, usize)>)
    ensures
        match r {
            Some(t) => dec_str(b@, pos as int) == Some((t.0@, t.1 as int)),
            None => dec_str(b@, pos as int) is None,
        },
{
    match read_u64(b, pos) {
        Some((n, p)) => {
            if n <= (b.len() - p) as u64 {
                let nn = n as usize;
                let bytes = slice_to_vec(slice_subrange(b.as_slice(), p, p + nn));
                match string_from_utf8(bytes) {
                    Some(s) => Some((s, p + nn)),
                    None => None,
                }
            } else {
                None
            }
        },
        None => None,
    }
}

/// Reads `k` consecutive strings.
fn read_str_list(b: &Vec<u8>, pos: usize, k: u64) -> (r: Option<(Vec<String>, usize)>)
    ensures
        match r {
            Some(t) => dec_str_list(b@, pos as int, k as nat) == Some(
                (t.0.deep_view(), t.1 as int),
            ),
            None => dec_str_list(b@, pos as int, k as nat) is None,
        },
{
    let mut acc: Vec<String> = Vec::new();
    let mut cur: usize = pos;
    let mut idx: u64 = 0;
    proof {
        assert(acc.deep_view() =~= Seq::<Seq<char>>::empty());
    }
    while idx < k
        invariant
            0 <= idx <= k,
            dec_str_list(b@, pos as int, k as nat) == (match dec_str_list(
                b@,
                cur as int,
                (k - idx) as nat,
            ) {
                Some(t) => Some((acc.deep_view() + t.0, t.1)),
                None => None::<(Seq<Seq<char>>, int)>,
            }),
        decreases k - idx,
    {
        match read_str(b, cur) {
            Some((s, p2)) => {
                let ghost prev = acc.deep_view();
                acc.push(s);
                proof {
                    assert(acc.deep_view() =~= prev.push(s@));
                    match dec_str_list(b@, p2 as int, (k - idx - 1) as nat) {
                        Some(t) => {
                            assert(prev + (seq![s@] + t.0) =~= (prev.push(s@)) + t.0);
                        },
                        None => {},
                    }
                }
                cur = p2;
            },
            None => {
                return None;
            },
        }
        idx = idx + 1;
    }
    proof {
        assert(acc.deep_view() + Seq::<Seq<char>>::empty() =~= acc.deep_view());
    }
    Some((acc, cur))
}

/// Reads an optional dependency list.
fn read_opt_deps(b: &Vec<u8>, pos: usize) -> (r: Option<(Option<Vec<String>>, usize)>)
    ensures
        match r {
            Some(t) => dec_opt_deps(b@, pos as int) == Some(
                (
                    match t.0 {
                        Some(v) => Some(v.deep_view()),
                        None => None,
                    },
                    t.1 as int,
                ),
            ),
            None => dec_opt_deps(b@, pos as int) is None,
        },
{
    if pos < b.len() {
        let tag = b[pos];
        if tag == 0 {
            Some((None, pos + 1))
        } else if tag == 1 {
            match read_u64(b, pos + 1) {
                Some((k, p)) => {
                    match read_str_list(b, p, k) {
                        Some((ds, p2)) => Some((Some(ds), p2)),
                        None => None,
                    }
                },
                None => None,
            }
        } else {
            None
        }
    } else {
        None
    }
}

/// Reads a metadata record.
fn read_metadata(b: &Vec<u8>, pos: usize) -> (r: Option<(Metadata, usize)>)
    ensures
        match r {
            Some(t) => dec_metadata(b@, pos as int) == Some((t.0@, t.1 as int)),
            None => dec_metadata(b@, pos as int) is None,
        },
{
    match read_str(b, pos) {
        Some((name, p1)) => match read_str(b, p1) {
            Some((version, p2)) => match read_str(b, p2) {
                Some((summary, p3)) => match read_opt_deps(b, p3) {
                    Some((dependencies, p4)) => Some(
                        (Metadata { name, version, summary, dependencies }, p4),
                    ),
                    None => None,
                },
                None => None,
            },
            None => None,
        },
        None => None,
    }
}

/// Decodes one metadata record from the head of `b`.
pub fn decode_metadata(b: &Vec<u8>) -> (r: Result<(Metadata, usize), VenvError>)
    ensures
        match r {
            Ok(t) => dec_metadata(b@, 0) == Some((t.0@, t.1 as int)),
            Err(e) => dec_metadata(b@, 0) is None && e is ParseError,
        },
{
    match read_metadata(b, 0) {
        Some(t) => Ok(t),
        None => Err(VenvError::ParseError(String::new())),
    }
}

/// Reads a package record.
fn read_package(b: &Vec<u8>, pos: usize) -> (r: Option<(Package, usize)>)
    ensures
        match r {
            Some(t) => dec_package(b@, pos as int) == Some((t.0@, t.1 as int)),
            None => dec_package(b@, pos as int) is None,
        },
{
    match read_str(b, pos) {
        Some((name, p1)) => match read_str(b, p1) {
            Some((version, p2)) => match read_u64(b, p2) {
                Some((size, p3)) => match read_metadata(b, p3) {
                    Some((metadata, p4)) => match read_u64(b, p4) {
                        Some((last_modified, p5)) => Some(
                            (Package { name, version, size, metadata, last_modified }, p5),
                        ),
                        None => None,
                    },
                    None => None,
                },
                None => None,
            },
            None => None,
        },
        None => None,
    }
}

/// Reads `k` consecutive package records.
fn read_package_list(b: &Vec<u8>, pos: usize, k: u64) -> (r: Option<(Vec<Package>, usize)>)
    ensures
        match r {
            Some(t) => dec_package_list(b@, pos as int, k as nat) == Some(
                (t.0.deep_view(), t.1 as int),
            ),
            None => dec_package_list(b@, pos as int, k as nat) is None,
        },
{
    let mut acc: Vec<Package> = Vec::new();
    let mut cur: usize = pos;
    let mut idx: u64 = 0;
    proof {
        assert(acc.deep_view() =~= Seq::<PackageView>::empty());
    }
    while idx < k
        invariant
            0 <= idx <= k,
            dec_package_list(b@, pos as int, k as nat) == (match dec_package_list(
                b@,
                cur as int,
                (k - idx) as nat,
            ) {
                Some(t) => Some((acc.deep_view() + t.0, t.1)),
                None => None::<(Seq<PackageView>, int)>,
            }),
        decreases k - idx,
    {
        match read_package(b, cur) {
            Some((p, p2)) => {
                let ghost prev = acc.deep_view();
                let ghost pview = p@;
                acc.push(p);
                proof {
                    assert(acc.deep_view() =~= prev.push(pview));
                    match dec_package_list(b@, p2 as int, (k - idx - 1) as nat) {
                        Some(t) => {
                            assert(prev + (seq![pview] + t.0) =~= (prev.push(pview)) + t.0);
                        },
                        None => {},
                    }
                }
                cur = p2;
            },
            None => {
                return None;
            },
        }
        idx = idx + 1;
    }
    proof {
        assert(acc.deep_view() + Seq::<PackageView>::empty() =~= acc.deep_view());
    }
    Some((acc, cur))
}

/// Decodes one environment record from the head of a cache file's bytes,
/// returning it with the count of bytes consumed.
pub fn decode_venv(b: &Vec<u8>) -> (r: Result<(Venv, usize), VenvError>)
    ensures
        match r {
            Ok(t) => dec_venv(b@, 0) == Some((t.0@, t.1 as int)),
            Err(e) => dec_venv(b@, 0) is None && e is ParseError,
        },
{
    match read_str(b, 0) {
        Some((name, p1)) => match read_str(b, p1) {
            Some((version, p2)) => match read_u64(b, p2) {
                Some((size, p3)) => match read_u64(b, p3) {
                    Some((k, p4)) => match read_package_list(b, p4, k) {
                        Some((packages, p5)) => match read_u64(b, p5) {
                            Some((num, p6)) => {
                                if num <= usize::MAX as u64 {
                                    match read_str(b, p6) {
                                        Some((binaries, p7)) => match read_str(b, p7) {
                                            Some((path, p8)) => Ok(
                                                (
                                                    Venv {
                                                        name,
                                                        version,
                                                        size,
                                                        packages,
                                                        num_dist_info_packages: num as usize,
                                                        binaries,
                                                        path,
                                                    },
                                                    p8,
                                                ),
                                            ),
                                            None => Err(
                                                VenvError::ParseError(String::new()),
                                            ),
                                        },
                                        None => Err(VenvError::ParseError(String::new())),
                                    }
                                } else {
                                    Err(VenvError::ParseError(String::new()))
                                }
                            },
                            None => Err(VenvError::ParseError(String::new())),
                        },
                        None => Err(VenvError::ParseError(String::new())),
                    },
                    None => Err(VenvError::ParseError(String::new())),
                },
                None => Err(VenvError::ParseError(String::new())),
            },
            None => Err(VenvError::ParseError(String::new())),
        },
        None => Err(VenvError::ParseError(String::new())),
    }
}

} // verus!
