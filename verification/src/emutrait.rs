//! The capability set an extraction target offers: resolving an entry's
//! path against the session's case-fold ledger, deciding whether metadata
//! preservation is needed, and planning the sidecar write that preserves
//! it. The actual file writes belong to the extraction driver.
use vstd::prelude::*;

use crate::dircache::DirCache;
use crate::dircache::cache_folded;
use crate::fileinfo::FileInfo;
use crate::transcode::ascii_lower;
use crate::transcode::case_equal;
use crate::transcode::is_reserved_byte;
use crate::transcode::lemma_transcode_case_fold;
use crate::transcode::lower_chars;
use crate::transcode::transcode;
use crate::transcode::transcoded;
use crate::UnlhaError;

verus! {

/// One planned sidecar write: where it goes, the exact bytes, and whether
/// they are appended to what is already there or replace it.
pub struct SidecarWrite {
    /// The host path of the sidecar file.
    pub path: String,
    /// The bytes to write.
    pub data: Vec<u8>,
    /// Append to the sidecar (the per-directory database) rather than
    /// overwrite it (the per-file text sidecar).
    pub append: bool,
}

/// Appending one component to an accumulating path: a separator goes in
/// between unless the accumulated path is still empty.
pub open spec fn join_step(a: Seq<char>, t: Seq<char>) -> Seq<char> {
    if a.len() == 0 {
        t
    } else {
        a + seq!['/'] + t
    }
}

/// One extraction target's path resolution, component by component: the
/// transcoded component is appended, and the accumulated path is folded
/// onto the first-seen casing recorded in the ledger, or recorded as that
/// first-seen casing itself.
pub open spec fn resolve_from(
    cache: Map<Seq<char>, Seq<char>>,
    accum: Seq<char>,
    comps: Seq<Seq<u8>>,
) -> (Map<Seq<char>, Seq<char>>, Seq<char>)
    decreases comps.len(),
{
    if comps.len() == 0 {
        (cache, accum)
    } else {
        let joined = join_step(accum, transcoded(comps.first()));
        let key = lower_chars(joined);
        if cache.contains_key(key) {
            resolve_from(cache, cache[key], comps.drop_first())
        } else {
            resolve_from(cache.insert(key, joined), joined, comps.drop_first())
        }
    }
}

/// A whole entry's path resolution, starting from an empty relative path:
/// the ledger afterwards, and the resolved relative path.
pub open spec fn resolve_spec(cache: Map<Seq<char>, Seq<char>>, comps: Seq<Seq<u8>>) -> (
    Map<Seq<char>, Seq<char>>,
    Seq<char>,
) {
    resolve_from(cache, Seq::empty(), comps)
}

/// Whether an entry carries platform attributes the host filesystem cannot
/// represent: a comment, a nonzero protection bitmask, or a reserved byte
/// anywhere in its path components.
pub open spec fn needs_metadata_spec(info: &FileInfo) -> bool {
    info.comment is Some || info.protection_bits != 0 || exists|i: int, j: int|
        0 <= i < info.path_components.deep_view().len() && 0 <= j
            < info.path_components.deep_view()[i].len() && is_reserved_byte(
            info.path_components.deep_view()[i][j],
        )
}

/// Decides whether an entry needs metadata preservation: it has a comment,
/// a nonzero protection bitmask, or a reserved byte in its path.
pub fn needs_metadata_check(info: &FileInfo) -> (r: bool)
    ensures
        r == needs_metadata_spec(info),
{
    if info.comment.is_some() {
        return true;
    }
    if info.protection_bits != 0 {
        return true;
    }
    let ghost dv = info.path_components.deep_view();
    let mut i: usize = 0;
    while i < info.path_components.len()
        invariant
            i <= dv.len(),
            dv == info.path_components.deep_view(),
            forall|a: int, b: int|
                0 <= a < i && 0 <= b < dv[a].len() ==> !is_reserved_byte(#[trigger] dv[a][b]),
        decreases dv.len() - i,
    {
        let comp = &info.path_components[i];
        proof {
            assert(dv[i as int] =~= comp@);
        }
        let mut j: usize = 0;
        while j < comp.len()
            invariant
                j <= comp@.len(),
                dv == info.path_components.deep_view(),
                dv[i as int] == comp@,
                i < dv.len(),
                forall|b: int| 0 <= b < j ==> !is_reserved_byte(#[trigger] comp@[b]),
            decreases comp@.len() - j,
        {
            let b = comp[j];
            if b == 0x25 || b == 0x5c || b == 0x2a || b == 0x3f || b == 0x22 || b == 0x2f || b
                == 0x7c || b == 0x3c || b == 0x3e {
                proof {
                    let pdv = info.path_components.deep_view();
                    assert(0 <= i < pdv.len() && 0 <= j < pdv[i as int].len() && is_reserved_byte(
                        pdv[i as int][j as int],
                    ));
                    assert(needs_metadata_spec(info));
                }
                return true;
            }
            j = j + 1;
        }
        i = i + 1;
    }
    false
}

/// Resolves an entry's path components against the session ledger,
/// component by component, recording first-seen casings and folding later
/// case variants onto them. Hands back the resolved relative path.
pub fn resolve_path(cache: &mut DirCache, comps: &Vec<Vec<u8>>) -> (r: String)
    requires
        old(cache).wf(),
    ensures
        final(cache).wf(),
        final(cache)@ == resolve_spec(old(cache)@, comps.deep_view()).0,
        r@ == resolve_spec(old(cache)@, comps.deep_view()).1,
{
    let ghost dv = comps.deep_view();
    let ghost cache0 = cache@;
    let mut accum = String::new();
    let mut i: usize = 0;
    proof {
        assert(dv.skip(0) =~= dv);
    }
    while i < comps.len()
        invariant
            i <= dv.len(),
            dv == comps.deep_view(),
            cache.wf(),
            resolve_from(cache0, Seq::empty(), dv) == resolve_from(cache@, accum@, dv.skip(i as int)),
        decreases dv.len() - i,
    {
        let ghost pre_cache = cache@;
        let ghost pre_accum = accum@;
        let comp = &comps[i];
        proof {
            assert(dv[i as int] =~= comp@);
        }
        let t = transcode(comp.as_slice());
        if !accum.as_str().is_empty() {
            accum.append("/");
        }
        accum.append(t.as_str());
        proof {
            if pre_accum.len() == 0 {
                assert(accum@ =~= join_step(pre_accum, t@));
            } else {
                reveal_strlit("/");
                assert(accum@ =~= pre_accum + "/"@ + t@);
                assert("/"@ =~= seq!['/']);
                assert(accum@ =~= join_step(pre_accum, t@));
            }
        }
        let key = ascii_lower(accum.as_str());
        match cache.lookup(&key) {
            Some(cached) => {
                accum = cached;
            },
            None => {
                cache.insert(key, accum.clone());
            },
        }
        proof {
            let rest = dv.skip(i as int);
            assert(rest.first() == dv[i as int]);
            assert(rest.drop_first() =~= dv.skip(i + 1));
            assert(resolve_from(pre_cache, pre_accum, rest) == resolve_from(
                cache@,
                accum@,
                dv.skip(i + 1),
            ));
        }
        i = i + 1;
    }
    proof {
        assert(dv.skip(dv.len() as int) =~= Seq::<Seq<u8>>::empty());
    }
    accum
}

/// The unfolded path of an entry: components transcoded one-to-one and
/// joined, with no case folding and no ledger, as the plain extraction
/// target builds it.
pub open spec fn plain_path(comps: Seq<Seq<u8>>) -> Seq<char>
    decreases comps.len(),
{
    if comps.len() == 0 {
        Seq::empty()
    } else {
        join_step(plain_path(comps.drop_last()), crate::transcode::raw_transcoded(comps.last()))
    }
}

/// Resolves an entry's path against the ledger and joins the result onto
/// the extraction root.
pub fn resolve_against(target: &String, cache: &mut DirCache, info: &FileInfo) -> (r: String)
    requires
        old(cache).wf(),
    ensures
        final(cache).wf(),
        final(cache)@ == resolve_spec(old(cache)@, info.path_components.deep_view()).0,
        r@ == join_step(target@, resolve_spec(old(cache)@, info.path_components.deep_view()).1),
{
    let rel = resolve_path(cache, &info.path_components);
    if target.as_str().is_empty() {
        rel
    } else {
        let mut r = target.clone();
        r.append("/");
        r.append(rel.as_str());
        proof {
            reveal_strlit("/");
            assert("/"@ =~= seq!['/']);
            assert(r@ =~= join_step(
                target@,
                resolve_spec(old(cache)@, info.path_components.deep_view()).1,
            ));
        }
        r
    }
}

/// What an extraction target offers the driver: its name transcoding, its
/// path resolution against the session ledger, its judgment of which
/// entries need metadata, and its planned sidecar writes.
pub trait Emu: Sized {
    /// The text this target's name mapping produces for a byte string.
    spec fn transcoded_name(s: Seq<u8>) -> Seq<char>;

    /// How this target resolves path components against the ledger: the
    /// ledger afterwards and the relative path.
    spec fn resolved(cache: Map<Seq<char>, Seq<char>>, comps: Seq<Seq<u8>>) -> (
        Map<Seq<char>, Seq<char>>,
        Seq<char>,
    );

    /// Which entries this target preserves metadata for.
    spec fn needs(info: &FileInfo) -> bool;

    /// What this target asks of an entry handed to `write_metadata`.
    spec fn metadata_pre(info: &FileInfo) -> bool;

    /// What `write_metadata` guarantees: how the target's state moved and
    /// exactly what write was planned, or which error came back.
    spec fn metadata_post(
        pre: Self,
        post: Self,
        info: &FileInfo,
        r: Result<Option<SidecarWrite>, UnlhaError>,
    ) -> bool;

    /// The target's state is internally consistent.
    spec fn wf(&self) -> bool;

    /// The extraction root this target was created with.
    spec fn target(&self) -> Seq<char>;

    /// The session ledger's contents.
    spec fn cache(&self) -> Map<Seq<char>, Seq<char>>;

    /// The extraction root directory.
    fn get_target_dir(&self) -> (r: &String)
        ensures
            r@ == self.target(),
    ;

    /// Transcodes one native byte string with this target's name mapping.
    fn make_string(slice: &[u8]) -> (r: String)
        ensures
            r@ == Self::transcoded_name(slice@),
    ;

    /// Whether this target preserves metadata for the entry.
    fn needs_metadata(info: &FileInfo) -> (r: bool)
        ensures
            r == Self::needs(info),
    ;

    /// Resolves the entry's path components to a host path under the
    /// extraction root, folding letter-case variants onto the first-seen
    /// casing wherever this target keeps a ledger.
    fn get_host_path(&mut self, info: &FileInfo) -> (r: String)
        requires
            old(self).wf(),
        ensures
            final(self).wf(),
            final(self).target() == old(self).target(),
            final(self).cache() == Self::resolved(
                old(self).cache(),
                info.path_components.deep_view(),
            ).0,
            r@ == join_step(
                old(self).target(),
                Self::resolved(old(self).cache(), info.path_components.deep_view()).1,
            ),
    ;

    /// Plans the sidecar write that preserves the entry's metadata, or
    /// nothing when the entry needs none.
    fn write_metadata(&mut self, info: &FileInfo) -> (r: Result<
        Option<SidecarWrite>,
        UnlhaError,
    >)
        requires
            old(self).wf(),
            Self::metadata_pre(info),
        ensures
            final(self).wf(),
            Self::metadata_post(*old(self), *final(self), info, r),
    ;
}

proof fn lemma_lower_join(a: Seq<char>, t: Seq<char>)
    ensures
        lower_chars(join_step(a, t)) == join_step(lower_chars(a), lower_chars(t)),
{
    if a.len() == 0 {
        assert(lower_chars(join_step(a, t)) =~= join_step(lower_chars(a), lower_chars(t)));
    } else {
        assert(lower_chars(a + seq!['/'] + t) =~= lower_chars(a) + seq!['/'] + lower_chars(t));
    }
}

/// Path resolution never removes or rewrites a recorded casing: every
/// ledger entry present before is present afterwards, unchanged.
pub proof fn lemma_resolve_monotone(
    cache: Map<Seq<char>, Seq<char>>,
    accum: Seq<char>,
    comps: Seq<Seq<u8>>,
)
    ensures
        forall|k: Seq<char>| #[trigger]
            cache.contains_key(k) ==> resolve_from(cache, accum, comps).0.contains_key(k)
                && resolve_from(cache, accum, comps).0[k] == cache[k],
    decreases comps.len(),
{
    if comps.len() == 0 {
    } else {
        let joined = join_step(accum, transcoded(comps.first()));
        let key = lower_chars(joined);
        if cache.contains_key(key) {
            lemma_resolve_monotone(cache, cache[key], comps.drop_first());
        } else {
            let cache2 = cache.insert(key, joined);
            lemma_resolve_monotone(cache2, joined, comps.drop_first());
            assert forall|k: Seq<char>| #[trigger]
                cache.contains_key(k) implies resolve_from(cache, accum, comps).0.contains_key(k)
                && resolve_from(cache, accum, comps).0[k] == cache[k] by {
                assert(cache2.contains_key(k) && cache2[k] == cache[k]);
            }
        }
    }
}

/// Path resolution keeps the ledger case-folded: every key it records is
/// the lower-cased form of the casing it records.
pub proof fn lemma_resolve_folded(
    cache: Map<Seq<char>, Seq<char>>,
    accum: Seq<char>,
    comps: Seq<Seq<u8>>,
)
    requires
        cache_folded(cache),
    ensures
        cache_folded(resolve_from(cache, accum, comps).0),
    decreases comps.len(),
{
    if comps.len() == 0 {
    } else {
        let joined = join_step(accum, transcoded(comps.first()));
        let key = lower_chars(joined);
        if cache.contains_key(key) {
            lemma_resolve_folded(cache, cache[key], comps.drop_first());
        } else {
            lemma_resolve_folded(cache.insert(key, joined), joined, comps.drop_first());
        }
    }
}

proof fn lemma_resolve_replay(
    cache: Map<Seq<char>, Seq<char>>,
    accum: Seq<char>,
    xs: Seq<Seq<u8>>,
    ys: Seq<Seq<u8>>,
)
    requires
        xs.len() == ys.len(),
        forall|i: int| 0 <= i < xs.len() ==> case_equal(#[trigger] xs[i], ys[i]),
    ensures
        resolve_from(resolve_from(cache, accum, xs).0, accum, ys) == resolve_from(
            cache,
            accum,
            xs,
        ),
    decreases xs.len(),
{
    if xs.len() == 0 {
    } else {
        let t1 = transcoded(xs.first());
        let t2 = transcoded(ys.first());
        assert(case_equal(xs[0], ys[0]));
        lemma_transcode_case_fold(xs.first(), ys.first());
        lemma_lower_join(accum, t1);
        lemma_lower_join(accum, t2);
        let j1 = join_step(accum, t1);
        let j2 = join_step(accum, t2);
        let key = lower_chars(j1);
        assert(lower_chars(j2) == key);
        assert forall|i: int|
            0 <= i < xs.drop_first().len() implies case_equal(
            #[trigger] xs.drop_first()[i],
            ys.drop_first()[i],
        ) by {
            assert(xs.drop_first()[i] == xs[i + 1]);
            assert(ys.drop_first()[i] == ys[i + 1]);
        }
        if cache.contains_key(key) {
            let a2 = cache[key];
            let c1 = resolve_from(cache, a2, xs.drop_first()).0;
            lemma_resolve_monotone(cache, a2, xs.drop_first());
            assert(c1.contains_key(key) && c1[key] == a2);
            lemma_resolve_replay(cache, a2, xs.drop_first(), ys.drop_first());
        } else {
            let cache2 = cache.insert(key, j1);
            let c1 = resolve_from(cache2, j1, xs.drop_first()).0;
            lemma_resolve_monotone(cache2, j1, xs.drop_first());
            assert(cache2.contains_key(key) && cache2[key] == j1);
            assert(c1.contains_key(key) && c1[key] == j1);
            lemma_resolve_replay(cache2, j1, xs.drop_first(), ys.drop_first());
        }
    }
}

/// Case-fold idempotence: after resolving an entry, resolving an entry
/// whose path components are identical except for ASCII letter case yields
/// the identical relative path, and the second resolution does not change
/// the ledger at all.
pub proof fn lemma_case_fold_idempotent(
    cache: Map<Seq<char>, Seq<char>>,
    xs: Seq<Seq<u8>>,
    ys: Seq<Seq<u8>>,
)
    requires
        xs.len() == ys.len(),
        forall|i: int| 0 <= i < xs.len() ==> case_equal(#[trigger] xs[i], ys[i]),
    ensures
        resolve_spec(resolve_spec(cache, xs).0, ys) == resolve_spec(cache, xs),
{
    lemma_resolve_replay(cache, Seq::empty(), xs, ys);
}

} // verus!
