//! The provides ledger of a part under compilation.
//!
//! Each feature registers the sub-shapes that it provides under
//! `(feature id, element name)`. After every later operation each entry is
//! carried forward through the operation's history: a single face or edge
//! stays bound only when it maps one to one; when it vanishes it becomes
//! `Deleted`, when it splits `Ambiguous`, both reported only when an anchor
//! refers to it. A face set (walls, side) absorbs splits and deletions. The
//! ledger is generic over the kernel's face, edge and axis values; the
//! history queries are made by the caller and handed in as plain results.
use vstd::prelude::*;
use crate::text::str_eq;

verus! {

broadcast use vstd::seq_lib::group_seq_properties;

/// A provided sub-shape, or what became of it.
#[derive(Debug)]
pub enum Provided<F, E, A> {
    Face(F),
    /// a set of faces (walls / side): splits and deletions change its size
    FaceSet(Vec<F>),
    Axis(A),
    Edge(E),
    /// vanished in the operation of `by_feature`
    Deleted { by_feature: String },
    /// split into `count` pieces by the operation of `by_feature`
    Ambiguous { by_feature: String, count: usize },
}

pub open spec fn spec_kind_name<F, E, A>(p: Provided<F, E, A>) -> Seq<char> {
    match p {
        Provided::Face(_) => "face"@,
        Provided::FaceSet(_) => "face集合"@,
        Provided::Axis(_) => "axis"@,
        Provided::Edge(_) => "edge"@,
        Provided::Deleted { .. } => "(消滅)"@,
        Provided::Ambiguous { .. } => "(多義)"@,
    }
}

impl<F, E, A> Provided<F, E, A> {
    /// The name of the kind of entry, as error messages show it.
    pub fn kind_name(&self) -> (r: &'static str)
        ensures
            r@ == spec_kind_name(*self),
    {
        match self {
            Provided::Face(_) => "face",
            Provided::FaceSet(_) => "face集合",
            Provided::Axis(_) => "axis",
            Provided::Edge(_) => "edge",
            Provided::Deleted { .. } => "(消滅)",
            Provided::Ambiguous { .. } => "(多義)",
        }
    }
}

// ---------------------------------------------------------------- forwarding

/// A single face carried through an operation that maps it to `mapped`:
/// unchanged when nothing maps and it is not removed, deleted when removed,
/// the image when exactly one, ambiguous when several.
pub open spec fn spec_forward_face<F, E, A>(
    f: F,
    mapped: Seq<F>,
    removed: bool,
    by: Seq<char>,
    p: Provided<F, E, A>,
) -> bool {
    if mapped.len() == 0 {
        if removed {
            p matches Provided::Deleted { by_feature } && by_feature@ == by
        } else {
            p == Provided::<F, E, A>::Face(f)
        }
    } else if mapped.len() == 1 {
        p == Provided::<F, E, A>::Face(mapped[0])
    } else {
        p matches Provided::Ambiguous { by_feature, count } && by_feature@ == by && count
            == mapped.len()
    }
}

/// Carries a single face forward (`mapped` = the history's modified faces of
/// `f`, `removed` = whether the history removed it).
pub fn forward_face<F, E, A>(f: F, mapped: Vec<F>, removed: bool, by: &str) -> (p: Provided<
    F,
    E,
    A,
>)
    ensures
        spec_forward_face(f, mapped@, removed, by@, p),
{
    let mut mapped = mapped;
    let n = mapped.len();
    if n == 0 {
        if removed {
            Provided::Deleted { by_feature: by.to_owned() }
        } else {
            Provided::Face(f)
        }
    } else if n == 1 {
        let g = mapped.pop().unwrap();
        Provided::Face(g)
    } else {
        Provided::Ambiguous { by_feature: by.to_owned(), count: n }
    }
}

/// The same for a single edge.
pub open spec fn spec_forward_edge<F, E, A>(
    e: E,
    mapped: Seq<E>,
    removed: bool,
    by: Seq<char>,
    p: Provided<F, E, A>,
) -> bool {
    if mapped.len() == 0 {
        if removed {
            p matches Provided::Deleted { by_feature } && by_feature@ == by
        } else {
            p == Provided::<F, E, A>::Edge(e)
        }
    } else if mapped.len() == 1 {
        p == Provided::<F, E, A>::Edge(mapped[0])
    } else {
        p matches Provided::Ambiguous { by_feature, count } && by_feature@ == by && count
            == mapped.len()
    }
}

/// Carries a single edge forward.
pub fn forward_edge<F, E, A>(e: E, mapped: Vec<E>, removed: bool, by: &str) -> (p: Provided<
    F,
    E,
    A,
>)
    ensures
        spec_forward_edge(e, mapped@, removed, by@, p),
{
    let mut mapped = mapped;
    let n = mapped.len();
    if n == 0 {
        if removed {
            Provided::Deleted { by_feature: by.to_owned() }
        } else {
            Provided::Edge(e)
        }
    } else if n == 1 {
        let g = mapped.pop().unwrap();
        Provided::Edge(g)
    } else {
        Provided::Ambiguous { by_feature: by.to_owned(), count: n }
    }
}

pub open spec fn vec_views<T>(v: Seq<Vec<T>>) -> Seq<Seq<T>> {
    v.map_values(|x: Vec<T>| x@)
}

/// The image of a face set: each face's modified faces, the face itself when
/// nothing maps and it is not removed, nothing when it is removed.
pub open spec fn spec_set_image<F>(faces: Seq<F>, mapped: Seq<Seq<F>>, removed: Seq<bool>) -> Seq<F>
    decreases faces.len(),
{
    if faces.len() == 0 {
        Seq::empty()
    } else {
        let k = faces.len() - 1;
        spec_set_image(faces.drop_last(), mapped.take(k), removed.take(k)) + if mapped[k].len()
            == 0 {
            if removed[k] {
                Seq::empty()
            } else {
                seq![faces[k]]
            }
        } else {
            mapped[k]
        }
    }
}

/// Carries a face set forward: splits are expanded, deleted faces dropped.
pub fn forward_face_set<F>(faces: Vec<F>, mapped: Vec<Vec<F>>, removed: Vec<bool>) -> (r: Vec<F>)
    requires
        mapped@.len() == faces@.len(),
        removed@.len() == faces@.len(),
    ensures
        r@ == spec_set_image(faces@, vec_views(mapped@), removed@),
{
    let ghost f0 = faces@;
    let ghost m0 = vec_views(mapped@);
    let ghost r0 = removed@;
    let n = faces.len();
    let mut faces = faces;
    let mut mapped = mapped;
    let mut removed = removed;
    // walk from the back, collecting the images in reverse
    let mut parts: Vec<Vec<F>> = Vec::new();
    let mut k = faces.len();
    while k > 0
        invariant
            faces@ == f0.take(k as int),
            vec_views(mapped@) == m0.take(k as int),
            removed@ == r0.take(k as int),
            n == f0.len(),
            faces@.len() == k,
            mapped@.len() == k,
            removed@.len() == k,
            k <= f0.len(),
            f0.len() == m0.len(),
            f0.len() == r0.len(),
            parts@.len() == f0.len() - k,
            forall|j: int|
                k <= j < f0.len() ==> (#[trigger] parts@[f0.len() - 1 - j])@ == (if m0[j].len()
                    == 0 {
                    if r0[j] {
                        Seq::<F>::empty()
                    } else {
                        seq![f0[j]]
                    }
                } else {
                    m0[j]
                }),
        decreases k,
    {
        let ghost old_mapped = mapped@;
        let f = faces.pop().unwrap();
        let m = mapped.pop().unwrap();
        let rm = removed.pop().unwrap();
        proof {
            assert(m == old_mapped[k - 1]);
            assert(vec_views(old_mapped)[k - 1] == old_mapped[k - 1]@);
            assert(m0.take(k as int)[k - 1] == m0[k - 1]);
            assert(f0.take(k - 1) =~= f0.take(k as int).drop_last());
            assert(m0.take(k - 1) =~= m0.take(k as int).drop_last());
            assert(r0.take(k - 1) =~= r0.take(k as int).drop_last());
            assert(m@ == m0[k - 1]);
        }
        let part: Vec<F> = if m.len() == 0 {
            if rm {
                Vec::new()
            } else {
                let mut one: Vec<F> = Vec::new();
                one.push(f);
                one
            }
        } else {
            m
        };
        parts.push(part);
        k = k - 1;
        proof {
            assert(vec_views(mapped@) =~= m0.take(k as int));
        }
    }
    proof {
        assert forall|i: int| 0 <= i < parts@.len() implies (#[trigger] parts@[i])@ == (if m0[n
            - 1 - i].len() == 0 {
            if r0[n - 1 - i] {
                Seq::<F>::empty()
            } else {
                seq![f0[n - 1 - i]]
            }
        } else {
            m0[n - 1 - i]
        }) by {
            let j = n - 1 - i;
            assert(parts@[f0.len() - 1 - j] == parts@[i]);
        }
    }
    let mut out: Vec<F> = Vec::new();
    let mut j: usize = 0;
    proof {
        assert(f0.take(0) =~= Seq::<F>::empty());
    }
    while j < n
        invariant
            n == f0.len(),
            f0.len() == m0.len(),
            f0.len() == r0.len(),
            j <= n,
            parts@.len() == n - j,
            forall|i: int|
                0 <= i < parts@.len() ==> (#[trigger] parts@[i])@ == (if m0[n - 1 - i].len() == 0 {
                    if r0[n - 1 - i] {
                        Seq::<F>::empty()
                    } else {
                        seq![f0[n - 1 - i]]
                    }
                } else {
                    m0[n - 1 - i]
                }),
            out@ == spec_set_image(f0.take(j as int), m0.take(j as int), r0.take(j as int)),
        decreases n - j,
    {
        let mut part = parts.pop().unwrap();
        proof {
            let t = f0.take(j + 1);
            assert(t.drop_last() =~= f0.take(j as int));
            assert(m0.take(j + 1).take(j as int) =~= m0.take(j as int));
            assert(r0.take(j + 1).take(j as int) =~= r0.take(j as int));
        }
        let ghost old_out = out@;
        let ghost pv = part@;
        out.append(&mut part);
        proof {
            assert(out@ =~= old_out + pv);
        }
        j = j + 1;
    }
    proof {
        assert(f0.take(n as int) =~= f0);
        assert(m0.take(n as int) =~= m0);
        assert(r0.take(n as int) =~= r0);
    }
    out
}

} // verus!

verus! {

/// What the history of one operation says of one ledger entry, as queried by
/// the caller: the modified images of a face, of each face of a set, or of an
/// edge, and whether they were removed. Axes and failed entries need none.
pub enum EntryHistory<F, E> {
    Face { mapped: Vec<F>, removed: bool },
    FaceSet { mapped_each: Vec<Vec<F>>, removed_each: Vec<bool> },
    Edge { mapped_edges: Vec<E>, removed: bool },
    NoQuery,
}

/// The history answers the kind of question that the entry asks.
pub open spec fn history_fits<F, E, A>(p: Provided<F, E, A>, h: EntryHistory<F, E>) -> bool {
    match (p, h) {
        (Provided::Face(_), EntryHistory::Face { .. }) => true,
        (Provided::FaceSet(fs), EntryHistory::FaceSet { mapped_each, removed_each }) => mapped_each@.len()
            == fs@.len() && removed_each@.len() == fs@.len(),
        (Provided::Edge(_), EntryHistory::Edge { .. }) => true,
        (Provided::Axis(_), EntryHistory::NoQuery) => true,
        (Provided::Deleted { .. }, EntryHistory::NoQuery) => true,
        (Provided::Ambiguous { .. }, EntryHistory::NoQuery) => true,
        _ => false,
    }
}

/// An entry carried forward through one operation.
pub open spec fn spec_forward_entry<F, E, A>(
    p: Provided<F, E, A>,
    h: EntryHistory<F, E>,
    by: Seq<char>,
    r: Provided<F, E, A>,
) -> bool {
    match (p, h) {
        (Provided::Face(f), EntryHistory::Face { mapped, removed }) => spec_forward_face(
            f,
            mapped@,
            removed,
            by,
            r,
        ),
        (Provided::FaceSet(fs), EntryHistory::FaceSet { mapped_each, removed_each }) => r matches Provided::FaceSet(
            out,
        ) && out@ == spec_set_image(fs@, vec_views(mapped_each@), removed_each@),
        (Provided::Edge(e), EntryHistory::Edge { mapped_edges, removed }) => spec_forward_edge(
            e,
            mapped_edges@,
            removed,
            by,
            r,
        ),
        _ => r == p,
    }
}

/// Carries one entry forward through an operation whose history `h` the
/// caller queried for it. Axes, deleted and ambiguous entries stay as they
/// are; a face set stays a face set.
pub fn forward_entry<F, E, A>(p: Provided<F, E, A>, h: EntryHistory<F, E>, by: &str) -> (r: Provided<
    F,
    E,
    A,
>)
    requires
        history_fits(p, h),
    ensures
        spec_forward_entry(p, h, by@, r),
{
    match p {
        Provided::Face(f) => match h {
            EntryHistory::Face { mapped, removed } => forward_face(f, mapped, removed, by),
            _ => Provided::Face(f),
        },
        Provided::FaceSet(fs) => match h {
            EntryHistory::FaceSet { mapped_each, removed_each } => Provided::FaceSet(
                forward_face_set(fs, mapped_each, removed_each),
            ),
            _ => Provided::FaceSet(fs),
        },
        Provided::Edge(e) => match h {
            EntryHistory::Edge { mapped_edges, removed } => forward_edge(e, mapped_edges, removed, by),
            _ => Provided::Edge(e),
        },
        other => other,
    }
}

/// Law: a face set never turns into a deleted or ambiguous entry, and axes,
/// deleted and ambiguous entries are never changed by forwarding.
pub proof fn law_forwarding_keeps_sets_and_settled_entries<F, E, A>(
    p: Provided<F, E, A>,
    h: EntryHistory<F, E>,
    by: Seq<char>,
    r: Provided<F, E, A>,
)
    requires
        history_fits(p, h),
        spec_forward_entry(p, h, by, r),
    ensures
        p is FaceSet ==> r is FaceSet,
        (p is Axis || p is Deleted || p is Ambiguous) ==> r == p,
        p is Face ==> (r is Face || r is Deleted || r is Ambiguous),
        p is Edge ==> (r is Edge || r is Deleted || r is Ambiguous),
{
}

/// Law (single face through an operation): a face that the history neither
/// maps nor removes stays as it is; a removed face becomes deleted by the
/// operation; a face mapped to exactly one face becomes that face; a face
/// mapped to several becomes ambiguous with their number.
pub proof fn law_face_forwarding<F, E, A>(
    f: F,
    mapped: Seq<F>,
    removed: bool,
    by: Seq<char>,
    p: Provided<F, E, A>,
)
    requires
        spec_forward_face(f, mapped, removed, by, p),
    ensures
        mapped.len() == 0 && !removed ==> p == Provided::<F, E, A>::Face(f),
        mapped.len() == 0 && removed ==> (p matches Provided::Deleted { by_feature } && by_feature@
            == by),
        mapped.len() == 1 ==> p == Provided::<F, E, A>::Face(mapped[0]),
        mapped.len() > 1 ==> (p matches Provided::Ambiguous { by_feature, count } && by_feature@
            == by && count == mapped.len()),
{
}

/// Law (single edge through an operation): an edge that the history neither
/// maps nor removes stays bound as it is; a removed edge becomes deleted by
/// the operation; an edge mapped to exactly one edge becomes that edge; an
/// edge mapped to several becomes ambiguous with their number.
pub proof fn law_edge_forwarding<F, E, A>(
    e: E,
    mapped: Seq<E>,
    removed: bool,
    by: Seq<char>,
    p: Provided<F, E, A>,
)
    requires
        spec_forward_edge(e, mapped, removed, by, p),
    ensures
        mapped.len() == 0 && !removed ==> p == Provided::<F, E, A>::Edge(e),
        mapped.len() == 0 && removed ==> (p matches Provided::Deleted { by_feature } && by_feature@
            == by),
        mapped.len() == 1 ==> p == Provided::<F, E, A>::Edge(mapped[0]),
        mapped.len() > 1 ==> (p matches Provided::Ambiguous { by_feature, count } && by_feature@
            == by && count == mapped.len()),
{
}

/// Law (face sets through an operation): every face of the set that the
/// history neither maps nor removes stays in the set, every face that a face
/// of the set maps to joins the set; when the history touches no face of the
/// set, the set is unchanged.
pub proof fn law_face_set_forwarding<F>(faces: Seq<F>, mapped: Seq<Seq<F>>, removed: Seq<bool>)
    requires
        mapped.len() == faces.len(),
        removed.len() == faces.len(),
    ensures
        forall|k: int|
            0 <= k < faces.len() && mapped[k].len() == 0 && !removed[k] ==> spec_set_image(
                faces,
                mapped,
                removed,
            ).contains(#[trigger] faces[k]),
        forall|k: int, j: int|
            0 <= k < faces.len() && 0 <= j < mapped[k].len() ==> spec_set_image(
                faces,
                mapped,
                removed,
            ).contains(#[trigger] mapped[k][j]),
        (forall|k: int| 0 <= k < faces.len() ==> (#[trigger] mapped[k]).len() == 0 && !removed[k])
            ==> spec_set_image(faces, mapped, removed) == faces,
    decreases faces.len(),
{
    if faces.len() > 0 {
        let n = faces.len() - 1;
        let f0 = faces.drop_last();
        let m0 = mapped.take(n);
        let r0 = removed.take(n);
        law_face_set_forwarding(f0, m0, r0);
        let img0 = spec_set_image(f0, m0, r0);
        let tail = if mapped[n].len() == 0 {
            if removed[n] {
                Seq::<F>::empty()
            } else {
                seq![faces[n]]
            }
        } else {
            mapped[n]
        };
        let img = spec_set_image(faces, mapped, removed);
        assert(img == img0 + tail);
        assert forall|k: int|
            0 <= k < faces.len() && mapped[k].len() == 0 && !removed[k] implies img.contains(
            #[trigger] faces[k],
        ) by {
            if k < n {
                assert(f0[k] == faces[k] && m0[k] == mapped[k] && r0[k] == removed[k]);
                assert(img0.contains(f0[k]));
                let i = choose|i: int| 0 <= i < img0.len() && img0[i] == faces[k];
                assert(img[i] == faces[k]);
            } else {
                assert(img[img0.len() as int] == faces[k]);
            }
        }
        assert forall|k: int, j: int| 0 <= k < faces.len() && 0 <= j < mapped[k].len() implies img.contains(
            #[trigger] mapped[k][j],
        ) by {
            if k < n {
                assert(m0[k] == mapped[k]);
                assert(img0.contains(m0[k][j]));
                let i = choose|i: int| 0 <= i < img0.len() && img0[i] == mapped[k][j];
                assert(img[i] == mapped[k][j]);
            } else {
                assert(img[img0.len() + j] == mapped[k][j]);
            }
        }
        if forall|k: int| 0 <= k < faces.len() ==> (#[trigger] mapped[k]).len() == 0 && !removed[k] {
            assert forall|k: int| 0 <= k < f0.len() implies (#[trigger] m0[k]).len() == 0 && !r0[k] by {
                assert(mapped[k].len() == 0 && !removed[k]);
                assert(m0[k] == mapped[k] && r0[k] == removed[k]);
            }
            assert(img0 == f0);
            assert(mapped[n].len() == 0 && !removed[n]);
            assert(tail == seq![faces[n]]);
            assert(img =~= faces);
        }
    }
}

/// Law (an entry through an operation): a single face or edge follows the
/// history of that face or edge (unchanged when untouched, its unique image,
/// deleted by the operation, or ambiguous with the number of images); a face
/// set stays a face set and is unchanged when the history touches none of
/// its faces; axes and failed entries do not change.
pub proof fn law_entry_forwarding<F, E, A>(
    p: Provided<F, E, A>,
    h: EntryHistory<F, E>,
    by: Seq<char>,
    r: Provided<F, E, A>,
)
    requires
        history_fits(p, h),
        spec_forward_entry(p, h, by, r),
    ensures
        p matches Provided::Face(f) ==> match h {
            EntryHistory::Face { mapped, removed } => {
                &&& mapped@.len() == 0 && !removed ==> r == p
                &&& mapped@.len() == 1 ==> r == Provided::<F, E, A>::Face(mapped@[0])
                &&& mapped@.len() == 0 && removed ==> (r matches Provided::Deleted { by_feature }
                    && by_feature@ == by)
                &&& mapped@.len() > 1 ==> (r matches Provided::Ambiguous { by_feature, count }
                    && by_feature@ == by && count == mapped@.len())
            },
            _ => true,
        },
        p matches Provided::Edge(e) ==> match h {
            EntryHistory::Edge { mapped_edges, removed } => {
                &&& mapped_edges@.len() == 0 && !removed ==> r == p
                &&& mapped_edges@.len() == 1 ==> r == Provided::<F, E, A>::Edge(mapped_edges@[0])
                &&& mapped_edges@.len() == 0 && removed ==> (r matches Provided::Deleted {
                    by_feature,
                } && by_feature@ == by)
                &&& mapped_edges@.len() > 1 ==> (r matches Provided::Ambiguous { by_feature, count }
                    && by_feature@ == by && count == mapped_edges@.len())
            },
            _ => true,
        },
        p matches Provided::FaceSet(fs) ==> match h {
            EntryHistory::FaceSet { mapped_each, removed_each } => r matches Provided::FaceSet(out)
                && ((forall|k: int|
                0 <= k < fs@.len() ==> (#[trigger] mapped_each@[k])@.len() == 0 && !removed_each@[k])
                ==> out@ == fs@),
            _ => true,
        },
        (p is Axis || p is Deleted || p is Ambiguous) ==> r == p,
{
    match (p, h) {
        (Provided::FaceSet(fs), EntryHistory::FaceSet { mapped_each, removed_each }) => {
            let m = vec_views(mapped_each@);
            law_face_set_forwarding(fs@, m, removed_each@);
            if forall|k: int|
                0 <= k < fs@.len() ==> (#[trigger] mapped_each@[k])@.len() == 0 && !removed_each@[k] {
                assert forall|k: int| 0 <= k < fs@.len() implies (#[trigger] m[k]).len() == 0
                    && !removed_each@[k] by {
                    assert(m[k] == mapped_each@[k]@);
                    assert(mapped_each@[k]@.len() == 0 && !removed_each@[k]);
                }
            }
        },
        _ => {},
    }
}

// ---------------------------------------------------------------- the ledger

/// The element of a feature that an anchor is bound to.
#[derive(Clone, Debug)]
pub enum ElemRef {
    Face(String),
    Axis(String),
    Edge(String),
    Point(String),
}

/// The kind of an anchor.
#[derive(Clone, Copy, Debug, PartialEq, Eq, Structural)]
pub enum AnchorKindTag {
    Face,
    Datum,
    Axis,
    Edge,
    Point,
}

/// Why an anchor could not be bound.
#[derive(Clone, Debug)]
pub enum BindError {
    /// the feature provides no such element
    UnknownProvides { feature_id: String, elem: String },
    /// the element vanished in a later feature's operation
    Deleted { anchor_id: String, by_feature: String },
    /// the element split into several (or the anchor names a set of faces)
    Ambiguous { anchor_id: String, by_feature: String, count: usize },
    /// the anchor's kind is not the kind of the provided element
    KindMismatch { anchor_id: String, expected: String, found: String },
}

/// Registered entries under `(feature id, element name)`, each key once.
pub struct Ledger<F, E, A> {
    entries: Vec<(String, String, Provided<F, E, A>)>,
}

pub open spec fn entry_key<F, E, A>(e: (String, String, Provided<F, E, A>)) -> (Seq<char>, Seq<char>) {
    (e.0@, e.1@)
}

impl<F, E, A> Ledger<F, E, A> {
    /// The entries in registration order.
    pub closed spec fn entries(&self) -> Seq<(String, String, Provided<F, E, A>)> {
        self.entries@
    }

    /// No key occurs twice.
    pub open spec fn wf(&self) -> bool {
        forall|i: int, j: int|
            0 <= i < j < self.entries().len() ==> entry_key(#[trigger] self.entries()[i])
                != entry_key(#[trigger] self.entries()[j])
    }

    /// The position of the entry under `(feature, name)`.
    pub open spec fn position(&self, feature: Seq<char>, name: Seq<char>) -> Option<int> {
        if exists|i: int|
            0 <= i < self.entries().len() && entry_key(#[trigger] self.entries()[i]) == (
                feature,
                name,
            ) {
            Some(
                choose|i: int|
                    0 <= i < self.entries().len() && entry_key(#[trigger] self.entries()[i]) == (
                        feature,
                        name,
                    ),
            )
        } else {
            None
        }
    }

    /// The entry under `(feature, name)`.
    pub open spec fn lookup(&self, feature: Seq<char>, name: Seq<char>) -> Option<
        Provided<F, E, A>,
    > {
        match self.position(feature, name) {
            Some(i) => Some(self.entries()[i].2),
            None => None,
        }
    }

    pub fn new() -> (l: Self)
        ensures
            l.wf(),
            l.entries().len() == 0,
    {
        Ledger { entries: Vec::new() }
    }

    pub fn len(&self) -> (n: usize)
        ensures
            n == self.entries().len(),
    {
        self.entries.len()
    }

    /// The entry at position `i`: feature id, element name, provided value.
    pub fn entry(&self, i: usize) -> (r: (&String, &String, &Provided<F, E, A>))
        requires
            i < self.entries().len(),
        ensures
            *r.0 == self.entries()[i as int].0,
            *r.1 == self.entries()[i as int].1,
            *r.2 == self.entries()[i as int].2,
    {
        let e = &self.entries[i];
        (&e.0, &e.1, &e.2)
    }

    fn find(&self, feature: &str, name: &str) -> (r: Option<usize>)
        requires
            self.wf(),
        ensures
            match r {
                Some(i) => self.position(feature@, name@) == Some(i as int),
                None => self.position(feature@, name@) is None,
            },
    {
        let mut i: usize = 0;
        while i < self.entries.len()
            invariant
                i <= self.entries().len(),
                self.entries() == self.entries@,
                self.wf(),
                forall|j: int|
                    0 <= j < i ==> entry_key(#[trigger] self.entries()[j]) != (feature@, name@),
            decreases self.entries().len() - i,
        {
            let e = &self.entries[i];
            if str_eq(e.0.as_str(), feature) && str_eq(e.1.as_str(), name) {
                proof {
                    assert(entry_key(self.entries()[i as int]) == (feature@, name@));
                    let c = choose|c: int|
                        0 <= c < self.entries().len() && entry_key(#[trigger] self.entries()[c]) == (
                            feature@,
                            name@,
                        );
                    if c != i {
                        if c < i {
                            assert(entry_key(self.entries()[c]) != entry_key(self.entries()[i as int]));
                        } else {
                            assert(entry_key(self.entries()[i as int]) != entry_key(self.entries()[c]));
                        }
                    }
                }
                return Some(i);
            }
            proof {
                assert(entry_key(self.entries()[i as int]) != (feature@, name@));
            }
            i = i + 1;
        }
        None
    }

    /// The entry under `(feature, name)`.
    pub fn get(&self, feature: &str, name: &str) -> (r: Option<&Provided<F, E, A>>)
        requires
            self.wf(),
        ensures
            match r {
                Some(p) => self.lookup(feature@, name@) == Some(*p),
                None => self.lookup(feature@, name@) is None,
            },
    {
        match self.find(feature, name) {
            Some(i) => Some(&self.entries[i].2),
            None => None,
        }
    }

    /// Registers `p` under `(feature, name)`, replacing an earlier entry with
    /// that key in its place.
    pub fn insert(&mut self, feature: String, name: String, p: Provided<F, E, A>)
        requires
            old(self).wf(),
        ensures
            final(self).wf(),
            match old(self).position(feature@, name@) {
                Some(i) => final(self).entries() == old(self).entries().update(i, (feature, name, p)),
                None => final(self).entries() == old(self).entries().push((feature, name, p)),
            },
    {
        match self.find(feature.as_str(), name.as_str()) {
            Some(i) => {
                let ghost old_e = self.entries@;
                proof {
                    assert(old_e == old(self).entries());
                    assert(entry_key(old_e[i as int]) == (feature@, name@));
                }
                self.entries.set(i, (feature, name, p));
                proof {
                    assert(self.entries() == old_e.update(i as int, (feature, name, p)));
                    assert(entry_key(self.entries()[i as int]) == entry_key(old_e[i as int]));
                    assert forall|a: int| 0 <= a < old_e.len() && a != i implies self.entries()[a] == old_e[a] by {}
                    assert forall|a: int, b: int|
                        0 <= a < b < self.entries().len() implies entry_key(
                        #[trigger] self.entries()[a],
                    ) != entry_key(#[trigger] self.entries()[b]) by {
                        assert(entry_key(old_e[a]) != entry_key(old_e[b]));
                        assert(entry_key(self.entries()[a]) == entry_key(old_e[a]));
                        assert(entry_key(self.entries()[b]) == entry_key(old_e[b]));
                    }
                }
            },
            None => {
                let ghost old_e = self.entries@;
                assert(old_e == old(self).entries());
                self.entries.push((feature, name, p));
                proof {
                    assert forall|a: int, b: int|
                        0 <= a < b < self.entries().len() implies entry_key(
                        #[trigger] self.entries()[a],
                    ) != entry_key(#[trigger] self.entries()[b]) by {
                        if b == old_e.len() {
                            assert(self.entries()[a] == old_e[a]);
                        } else {
                            assert(entry_key(old_e[a]) != entry_key(old_e[b]));
                        }
                    }
                }
            },
        }
    }

    /// The face under `(feature, name)`, when the entry is a single face.
    pub fn provided_face(&self, feature: &str, name: &str) -> (r: Option<&F>)
        requires
            self.wf(),
        ensures
            match self.lookup(feature@, name@) {
                Some(Provided::Face(f)) => r == Some(&f),
                _ => r is None,
            },
    {
        match self.get(feature, name) {
            Some(Provided::Face(f)) => Some(f),
            _ => None,
        }
    }

    /// The faces under `(feature, name)`, when the entry is a face set.
    pub fn provided_face_set(&self, feature: &str, name: &str) -> (r: Option<&Vec<F>>)
        requires
            self.wf(),
        ensures
            match self.lookup(feature@, name@) {
                Some(Provided::FaceSet(v)) => r == Some(&v),
                _ => r is None,
            },
    {
        match self.get(feature, name) {
            Some(Provided::FaceSet(v)) => Some(v),
            _ => None,
        }
    }

    /// The axis under `(feature, name)`, when the entry is an axis.
    pub fn provided_axis(&self, feature: &str, name: &str) -> (r: Option<&A>)
        requires
            self.wf(),
        ensures
            match self.lookup(feature@, name@) {
                Some(Provided::Axis(a)) => r == Some(&a),
                _ => r is None,
            },
    {
        match self.get(feature, name) {
            Some(Provided::Axis(a)) => Some(a),
            _ => None,
        }
    }

    /// The edge under `(feature, name)`, when the entry is a single edge.
    pub fn provided_edge(&self, feature: &str, name: &str) -> (r: Option<&E>)
        requires
            self.wf(),
        ensures
            match self.lookup(feature@, name@) {
                Some(Provided::Edge(e)) => r == Some(&e),
                _ => r is None,
            },
    {
        match self.get(feature, name) {
            Some(Provided::Edge(e)) => Some(e),
            _ => None,
        }
    }
}

pub open spec fn expected_kind(kind: AnchorKindTag) -> Seq<char> {
    match kind {
        AnchorKindTag::Face | AnchorKindTag::Datum => "face"@,
        AnchorKindTag::Axis => "axis"@,
        AnchorKindTag::Edge => "edge"@,
        AnchorKindTag::Point => "point"@,
    }
}

/// The element name an anchor refers to; a point has none yet.
pub open spec fn elem_name(elem: ElemRef) -> Option<Seq<char>> {
    match elem {
        ElemRef::Face(n) => Some(n@),
        ElemRef::Axis(n) => Some(n@),
        ElemRef::Edge(n) => Some(n@),
        ElemRef::Point(_) => None,
    }
}

/// A provided entry of this kind binds an anchor of `kind`.
pub open spec fn kind_binds<F, E, A>(kind: AnchorKindTag, p: Provided<F, E, A>) -> bool {
    match p {
        Provided::Face(_) => kind == AnchorKindTag::Face || kind == AnchorKindTag::Datum,
        Provided::Axis(_) => kind == AnchorKindTag::Axis,
        Provided::Edge(_) => kind == AnchorKindTag::Edge,
        _ => false,
    }
}

/// Binding an anchor: an unknown element is an error; a deleted or split
/// element is reported with its cause; a single-face anchor on a set of
/// faces is ambiguous; the entry's kind must be the anchor's kind; on
/// success the key of the entry is returned.
pub open spec fn bind_is<F, E, A>(
    l: Ledger<F, E, A>,
    anchor_id: Seq<char>,
    kind: AnchorKindTag,
    feature: Seq<char>,
    elem: ElemRef,
    r: Result<(String, String), BindError>,
) -> bool {
    match elem_name(elem) {
        None => r matches Err(BindError::UnknownProvides { feature_id, elem: m }) && feature_id@
            == feature && m@ == "point("@ + elem->Point_0@ + ") はT1語彙で未提供"@,
        Some(name) => match l.lookup(feature, name) {
            None => r matches Err(BindError::UnknownProvides { feature_id, elem: m })
                && feature_id@ == feature && m@ == name,
            Some(p) => match p {
                Provided::Deleted { by_feature } => r matches Err(
                    BindError::Deleted { anchor_id: a, by_feature: b },
                ) && a@ == anchor_id && b@ == by_feature@,
                Provided::Ambiguous { by_feature, count } => r matches Err(
                    BindError::Ambiguous { anchor_id: a, by_feature: b, count: c },
                ) && a@ == anchor_id && b@ == by_feature@ && c == count,
                Provided::FaceSet(v) if kind == AnchorKindTag::Face || kind == AnchorKindTag::Datum => r matches Err(
                    BindError::Ambiguous { anchor_id: a, by_feature: b, count: c },
                ) && a@ == anchor_id && b@ == feature && c == v@.len(),
                _ => if kind_binds(kind, p) {
                    r matches Ok((f, n)) && f@ == feature && n@ == name
                } else {
                    r matches Err(BindError::KindMismatch { anchor_id: a, expected: x, found: y })
                        && a@ == anchor_id && x@ == expected_kind(kind) && y@ == spec_kind_name(
                        p,
                    )
                },
            },
        },
    }
}

fn expected_kind_name(kind: AnchorKindTag) -> (r: &'static str)
    ensures
        r@ == expected_kind(kind),
{
    match kind {
        AnchorKindTag::Face | AnchorKindTag::Datum => "face",
        AnchorKindTag::Axis => "axis",
        AnchorKindTag::Edge => "edge",
        AnchorKindTag::Point => "point",
    }
}

impl<F, E, A> Ledger<F, E, A> {
    /// Binds an anchor of `kind` to the element `elem` of `feature`.
    pub fn bind_anchor(
        &self,
        anchor_id: &str,
        kind: AnchorKindTag,
        feature: &str,
        elem: &ElemRef,
    ) -> (r: Result<(String, String), BindError>)
        requires
            self.wf(),
        ensures
            bind_is(*self, anchor_id@, kind, feature@, *elem, r),
    {
        let name: &String = match elem {
            ElemRef::Face(n) => n,
            ElemRef::Axis(n) => n,
            ElemRef::Edge(n) => n,
            ElemRef::Point(n) => {
                let m = "point(".to_owned();
                let m = m.concat(n.as_str());
                let m = m.concat(") はT1語彙で未提供");
                return Err(BindError::UnknownProvides { feature_id: feature.to_owned(), elem: m });
            },
        };
        let entry = match self.get(feature, name.as_str()) {
            Some(p) => p,
            None => {
                return Err(
                    BindError::UnknownProvides { feature_id: feature.to_owned(), elem: name.clone() },
                );
            },
        };
        let is_face_anchor = match kind {
            AnchorKindTag::Face | AnchorKindTag::Datum => true,
            _ => false,
        };
        match entry {
            Provided::Deleted { by_feature } => Err(
                BindError::Deleted { anchor_id: anchor_id.to_owned(), by_feature: by_feature.clone() },
            ),
            Provided::Ambiguous { by_feature, count } => Err(
                BindError::Ambiguous {
                    anchor_id: anchor_id.to_owned(),
                    by_feature: by_feature.clone(),
                    count: *count,
                },
            ),
            Provided::FaceSet(v) if is_face_anchor => Err(
                BindError::Ambiguous {
                    anchor_id: anchor_id.to_owned(),
                    by_feature: feature.to_owned(),
                    count: v.len(),
                },
            ),
            _ => {
                let binds = match entry {
                    Provided::Face(_) => is_face_anchor,
                    Provided::Axis(_) => kind == AnchorKindTag::Axis,
                    Provided::Edge(_) => kind == AnchorKindTag::Edge,
                    _ => false,
                };
                if binds {
                    Ok((feature.to_owned(), name.clone()))
                } else {
                    Err(
                        BindError::KindMismatch {
                            anchor_id: anchor_id.to_owned(),
                            expected: expected_kind_name(kind).to_owned(),
                            found: entry.kind_name().to_owned(),
                        },
                    )
                }
            },
        }
    }

    /// Carries every entry forward through one operation of `by`; `histories`
    /// holds, position by position, what the operation's history says of each
    /// entry.
    pub fn forward_all(&mut self, histories: Vec<EntryHistory<F, E>>, by: &str)
        requires
            old(self).wf(),
            histories@.len() == old(self).entries().len(),
            forall|i: int|
                0 <= i < histories@.len() ==> history_fits(
                    old(self).entries()[i].2,
                    #[trigger] histories@[i],
                ),
        ensures
            final(self).wf(),
            final(self).entries().len() == old(self).entries().len(),
            forall|i: int|
                0 <= i < old(self).entries().len() ==> (#[trigger] final(self).entries()[i]).0
                    == old(self).entries()[i].0 && final(self).entries()[i].1 == old(
                    self,
                ).entries()[i].1 && spec_forward_entry(
                    old(self).entries()[i].2,
                    histories@[i],
                    by@,
                    final(self).entries()[i].2,
                ),
    {
        let ghost e0 = self.entries@;
        let ghost h0 = histories@;
        let n = self.entries.len();
        let mut rest: Vec<(String, String, Provided<F, E, A>)> = Vec::new();
        std::mem::swap(&mut rest, &mut self.entries);
        let mut hs = histories;
        let mut rev: Vec<(String, String, Provided<F, E, A>)> = Vec::new();
        let mut k = n;
        while k > 0
            invariant
                n == e0.len(),
                k <= n,
                rest@ == e0.take(k as int),
                hs@ == h0.take(k as int),
                h0.len() == n,
                rev@.len() == n - k,
                forall|i: int| 0 <= i < n ==> history_fits(e0[i].2, #[trigger] h0[i]),
                forall|j: int|
                    k <= j < n ==> (#[trigger] rev@[n - 1 - j]).0 == e0[j].0 && rev@[n - 1 - j].1
                        == e0[j].1 && spec_forward_entry(e0[j].2, h0[j], by@, rev@[n - 1 - j].2),
            decreases k,
        {
            let (f, nm, p) = rest.pop().unwrap();
            let h = hs.pop().unwrap();
            proof {
                assert(e0.take(k - 1) =~= e0.take(k as int).drop_last());
                assert(h0.take(k - 1) =~= h0.take(k as int).drop_last());
                assert(h == h0[k - 1]);
            }
            let q = forward_entry(p, h, by);
            rev.push((f, nm, q));
            k = k - 1;
        }
        proof {
            assert forall|i: int| 0 <= i < rev@.len() implies (#[trigger] rev@[i]).0 == e0[n - 1
                - i].0 && rev@[i].1 == e0[n - 1 - i].1 && spec_forward_entry(
                e0[n - 1 - i].2,
                h0[n - 1 - i],
                by@,
                rev@[i].2,
            ) by {
                let j = n - 1 - i;
                assert(rev@[n - 1 - j] == rev@[i]);
            }
        }
        let mut out: Vec<(String, String, Provided<F, E, A>)> = Vec::new();
        let mut j: usize = 0;
        while j < n
            invariant
                n == e0.len(),
                h0.len() == n,
                j <= n,
                rev@.len() == n - j,
                out@.len() == j,
                forall|i: int|
                    0 <= i < rev@.len() ==> (#[trigger] rev@[i]).0 == e0[n - 1 - i].0 && rev@[i].1
                        == e0[n - 1 - i].1 && spec_forward_entry(
                        e0[n - 1 - i].2,
                        h0[n - 1 - i],
                        by@,
                        rev@[i].2,
                    ),
                forall|i: int|
                    0 <= i < j ==> (#[trigger] out@[i]).0 == e0[i].0 && out@[i].1 == e0[i].1
                        && spec_forward_entry(e0[i].2, h0[i], by@, out@[i].2),
            decreases n - j,
        {
            let x = rev.pop().unwrap();
            out.push(x);
            j = j + 1;
        }
        self.entries = out;
        proof {
            assert forall|a: int, b: int|
                0 <= a < b < self.entries().len() implies entry_key(#[trigger] self.entries()[a])
                != entry_key(#[trigger] self.entries()[b]) by {
                assert(entry_key(e0[a]) != entry_key(e0[b]));
            }
        }
    }
}

/// The faces that an edge selection refers to: one face, or a face set.
pub enum FaceGroup<'a, F> {
    One(&'a F),
    Faces(&'a Vec<F>),
}

/// Why an edge selection's reference gives no faces.
#[derive(Clone, Debug)]
pub enum FaceGroupError {
    /// the reference names an element that is not a face
    NotFaceElem,
    /// the feature provides no such element
    UnknownProvides { feature_id: String, elem: String },
    /// the face vanished, or the entry is not a face
    Geometry { message: String },
}

/// The faces of an edge selection's reference `feature.elem`: a single face
/// or a face set; a vanished face, or an entry that is not a face, is an
/// error with its message.
pub open spec fn face_group_is<'a, F, E, A>(
    l: Ledger<F, E, A>,
    feature: Seq<char>,
    elem: ElemRef,
    r: Result<FaceGroup<'a, F>, FaceGroupError>,
) -> bool {
    match elem {
        ElemRef::Face(n) => match l.lookup(feature, n@) {
            None => r matches Err(FaceGroupError::UnknownProvides { feature_id, elem: m })
                && feature_id@ == feature && m@ == n@,
            Some(Provided::Face(f)) => r matches Ok(FaceGroup::One(g)) && *g == f,
            Some(Provided::FaceSet(v)) => r matches Ok(FaceGroup::Faces(w)) && *w == v,
            Some(Provided::Deleted { by_feature }) => r matches Err(
                FaceGroupError::Geometry { message },
            ) && message@ == "エッジ選択の参照面 "@ + feature + "."@ + n@ + " は \""@
                + by_feature@ + "\" の操作で消滅しています"@,
            Some(p) => r matches Err(FaceGroupError::Geometry { message }) && message@
                == "エッジ選択の参照 "@ + feature + "."@ + n@ + " が面ではありません("@
                + spec_kind_name(p) + ")"@,
        },
        _ => r matches Err(FaceGroupError::NotFaceElem),
    }
}

impl<F, E, A> Ledger<F, E, A> {
    /// The faces that an edge selection (edges of, edges between) refers to.
    pub fn face_group(&self, feature: &str, elem: &ElemRef) -> (r: Result<
        FaceGroup<'_, F>,
        FaceGroupError,
    >)
        requires
            self.wf(),
        ensures
            face_group_is(*self, feature@, *elem, r),
    {
        let name = match elem {
            ElemRef::Face(n) => n,
            _ => {
                return Err(FaceGroupError::NotFaceElem);
            },
        };
        match self.get(feature, name.as_str()) {
            None => Err(
                FaceGroupError::UnknownProvides { feature_id: feature.to_owned(), elem: name.clone() },
            ),
            Some(Provided::Face(f)) => Ok(FaceGroup::One(f)),
            Some(Provided::FaceSet(v)) => Ok(FaceGroup::Faces(v)),
            Some(Provided::Deleted { by_feature }) => {
                let m = "エッジ選択の参照面 ".to_owned();
                let m = m.concat(feature);
                let m = m.concat(".");
                let m = m.concat(name.as_str());
                let m = m.concat(" は \"");
                let m = m.concat(by_feature.as_str());
                let m = m.concat("\" の操作で消滅しています");
                Err(FaceGroupError::Geometry { message: m })
            },
            Some(p) => {
                let m = "エッジ選択の参照 ".to_owned();
                let m = m.concat(feature);
                let m = m.concat(".");
                let m = m.concat(name.as_str());
                let m = m.concat(" が面ではありません(");
                let m = m.concat(p.kind_name());
                let m = m.concat(")");
                Err(FaceGroupError::Geometry { message: m })
            },
        }
    }
}

/// A bound anchor: the face, edge or axis of its ledger entry.
pub enum BoundAnchorRef<'a, F, E, A> {
    Face(&'a F),
    Edge(&'a E),
    Axis(&'a A),
}

impl<F, E, A> Ledger<F, E, A> {
    /// The bound face, edge or axis under `(feature, name)`; none for a face
    /// set or a failed entry.
    pub fn anchor_target(&self, feature: &str, name: &str) -> (r: Option<BoundAnchorRef<'_, F, E, A>>)
        requires
            self.wf(),
        ensures
            match self.lookup(feature@, name@) {
                Some(Provided::Face(f)) => r matches Some(BoundAnchorRef::Face(g)) && *g == f,
                Some(Provided::Edge(e)) => r matches Some(BoundAnchorRef::Edge(g)) && *g == e,
                Some(Provided::Axis(a)) => r matches Some(BoundAnchorRef::Axis(g)) && *g == a,
                _ => r is None,
            },
    {
        match self.get(feature, name) {
            Some(Provided::Face(f)) => Some(BoundAnchorRef::Face(f)),
            Some(Provided::Edge(e)) => Some(BoundAnchorRef::Edge(e)),
            Some(Provided::Axis(a)) => Some(BoundAnchorRef::Axis(a)),
            _ => None,
        }
    }
}


/// Law (binding after an operation): an anchor on a single face that an
/// operation carried forward is still bound when the face mapped one to one
/// (or was untouched), is reported deleted by that operation when the face
/// vanished, and ambiguous with the number of pieces when it split.
pub proof fn law_anchor_follows_its_face<F, E, A>(
    l: Ledger<F, E, A>,
    anchor_id: Seq<char>,
    kind: AnchorKindTag,
    feature: Seq<char>,
    name: String,
    f: F,
    mapped: Seq<F>,
    removed: bool,
    by: Seq<char>,
    r: Result<(String, String), BindError>,
)
    requires
        kind == AnchorKindTag::Face || kind == AnchorKindTag::Datum,
        l.lookup(feature, name@) matches Some(p) && spec_forward_face(f, mapped, removed, by, p),
        bind_is(l, anchor_id, kind, feature, ElemRef::Face(name), r),
    ensures
        mapped.len() == 1 || (mapped.len() == 0 && !removed) ==> (r matches Ok((a, b)) && a@
            == feature && b@ == name@),
        mapped.len() == 0 && removed ==> (r matches Err(
            BindError::Deleted { anchor_id: x, by_feature: y },
        ) && x@ == anchor_id && y@ == by),
        mapped.len() > 1 ==> (r matches Err(
            BindError::Ambiguous { anchor_id: x, by_feature: y, count: c },
        ) && x@ == anchor_id && y@ == by && c == mapped.len()),
{
}


/// With unique keys, the entry holding a key is at the key's position.
proof fn lemma_position_at<F, E, A>(l: Ledger<F, E, A>, i: int)
    requires
        l.wf(),
        0 <= i < l.entries().len(),
    ensures
        l.position(l.entries()[i].0@, l.entries()[i].1@) == Some(i),
{
    let key = entry_key(l.entries()[i]);
    assert(entry_key(l.entries()[i]) == key);
    let j = choose|j: int| 0 <= j < l.entries().len() && entry_key(#[trigger] l.entries()[j]) == key;
    if j < i {
        assert(entry_key(l.entries()[j]) != entry_key(l.entries()[i]));
    } else if j > i {
        assert(entry_key(l.entries()[i]) != entry_key(l.entries()[j]));
    }
}

/// Law (read after write): after `insert(feature, name, p)` the entry under
/// `(feature, name)` is `p`, and the entry under every other key is what it
/// was before.
pub proof fn law_get_after_insert<F, E, A>(
    before: Ledger<F, E, A>,
    after: Ledger<F, E, A>,
    feature: String,
    name: String,
    p: Provided<F, E, A>,
    other_feature: Seq<char>,
    other_name: Seq<char>,
)
    requires
        before.wf(),
        after.wf(),
        match before.position(feature@, name@) {
            Some(i) => after.entries() == before.entries().update(i, (feature, name, p)),
            None => after.entries() == before.entries().push((feature, name, p)),
        },
    ensures
        after.lookup(feature@, name@) == Some(p),
        (other_feature, other_name) != (feature@, name@) ==> after.lookup(other_feature, other_name)
            == before.lookup(other_feature, other_name),
{
    let k = match before.position(feature@, name@) {
        Some(i) => i,
        None => before.entries().len() as int,
    };
    assert(after.entries()[k] == (feature, name, p));
    lemma_position_at(after, k);
    if (other_feature, other_name) != (feature@, name@) {
        match before.position(other_feature, other_name) {
            Some(j) => {
                assert(entry_key(before.entries()[j]) == (other_feature, other_name));
                assert(j != k);
                assert(after.entries()[j] == before.entries()[j]);
                lemma_position_at(after, j);
            },
            None => {
                if after.position(other_feature, other_name) is Some {
                    let j = choose|j: int|
                        0 <= j < after.entries().len() && entry_key(#[trigger] after.entries()[j]) == (
                            other_feature,
                            other_name,
                        );
                    assert(j != k);
                    assert(after.entries()[j] == before.entries()[j]);
                    assert(entry_key(before.entries()[j]) == (other_feature, other_name));
                }
            },
        }
    }
}


/// The element names an element of the feature by `name` (faces, axes and
/// edges; a point is never provided).
pub open spec fn names_element(elem: ElemRef, name: String) -> bool {
    elem == ElemRef::Face(name) || elem == ElemRef::Axis(name) || elem == ElemRef::Edge(name)
}

/// Law (binding by kind): an anchor whose kind is the kind of its single
/// provided entry binds to that entry's key: a face or datum anchor to a
/// face, an axis anchor to an axis, an edge anchor to an edge.
pub proof fn law_matching_kind_binds<F, E, A>(
    l: Ledger<F, E, A>,
    anchor_id: Seq<char>,
    kind: AnchorKindTag,
    feature: Seq<char>,
    name: String,
    elem: ElemRef,
    r: Result<(String, String), BindError>,
)
    requires
        l.wf(),
        names_element(elem, name),
        l.lookup(feature, name@) matches Some(p) && ((p is Face && (kind == AnchorKindTag::Face
            || kind == AnchorKindTag::Datum)) || (p is Axis && kind == AnchorKindTag::Axis) || (
        p is Edge && kind == AnchorKindTag::Edge)),
        bind_is(l, anchor_id, kind, feature, elem, r),
    ensures
        r matches Ok((f, n)) && f@ == feature && n@ == name@,
{
}

/// Law (kind mismatch): an anchor on a single face, axis or edge whose kind
/// is another kind is refused, naming the anchor, the kind it asked for and
/// the kind that is provided.
pub proof fn law_other_kind_is_refused<F, E, A>(
    l: Ledger<F, E, A>,
    anchor_id: Seq<char>,
    kind: AnchorKindTag,
    feature: Seq<char>,
    name: String,
    elem: ElemRef,
    r: Result<(String, String), BindError>,
)
    requires
        l.wf(),
        names_element(elem, name),
        l.lookup(feature, name@) matches Some(p) && ((p is Face && kind != AnchorKindTag::Face
            && kind != AnchorKindTag::Datum) || (p is Axis && kind != AnchorKindTag::Axis) || (
        p is Edge && kind != AnchorKindTag::Edge)),
        bind_is(l, anchor_id, kind, feature, elem, r),
    ensures
        r matches Err(BindError::KindMismatch { anchor_id: a, expected: x, found: y }) && a@
            == anchor_id && x@ == (match kind {
            AnchorKindTag::Face => "face"@,
            AnchorKindTag::Datum => "face"@,
            AnchorKindTag::Axis => "axis"@,
            AnchorKindTag::Edge => "edge"@,
            AnchorKindTag::Point => "point"@,
        }) && y@ == (match l.lookup(feature, name@) {
            Some(Provided::Face(_)) => "face"@,
            Some(Provided::Axis(_)) => "axis"@,
            _ => "edge"@,
        }),
{
}


/// Law (faces of an edge selection): a single face gives that face, a face
/// set gives that set, an unknown key is reported as unknown, a vanished
/// face names the feature that removed it, and a reference to anything but
/// a face element is refused.
pub proof fn law_face_group_follows_the_entry<'a, F, E, A>(
    l: Ledger<F, E, A>,
    feature: Seq<char>,
    name: String,
    other: ElemRef,
    r: Result<FaceGroup<'a, F>, FaceGroupError>,
    r_other: Result<FaceGroup<'a, F>, FaceGroupError>,
)
    requires
        face_group_is(l, feature, ElemRef::Face(name), r),
        !(other is Face),
        face_group_is(l, feature, other, r_other),
    ensures
        l.lookup(feature, name@) matches Some(Provided::Face(f)) ==> (r matches Ok(FaceGroup::One(g))
            && *g == f),
        l.lookup(feature, name@) matches Some(Provided::FaceSet(v)) ==> (r matches Ok(
            FaceGroup::Faces(w),
        ) && w@ == v@),
        l.lookup(feature, name@) is None ==> (r matches Err(
            FaceGroupError::UnknownProvides { feature_id, elem },
        ) && feature_id@ == feature && elem@ == name@),
        l.lookup(feature, name@) matches Some(Provided::Deleted { by_feature }) ==> (r matches Err(
            FaceGroupError::Geometry { message },
        ) && message@ == "エッジ選択の参照面 "@ + feature + "."@ + name@ + " は \""@ + by_feature@
            + "\" の操作で消滅しています"@),
        (l.lookup(feature, name@) matches Some(p) && (p is Axis || p is Edge || p is Ambiguous))
            ==> r matches Err(FaceGroupError::Geometry { .. }),
        r_other matches Err(FaceGroupError::NotFaceElem),
{
}

} // verus!
