//! Feature compilation apart from the geometry: the kinds of surfaces, the
//! ids that top-level features must carry, the indexed keys of pattern
//! instances, the datum anchors of a part, and the binding of all anchors.
use vstd::prelude::*;
use crate::ledger::{bind_is, AnchorKindTag, BindError, ElemRef, Ledger};
use crate::text::{push_char, string_views};

verus! {

broadcast use vstd::seq_lib::group_seq_properties;

/// The kind of the surface under a face.
#[derive(Clone, Copy, Debug, PartialEq, Eq, Structural)]
pub enum SurfaceKind {
    Plane,
    Cylinder,
    Cone,
    Sphere,
    Torus,
    Other,
}

/// A feature that cannot be compiled as written.
#[derive(Clone, Debug)]
pub struct Unsupported {
    pub feature_id: String,
    pub what: String,
}

/// The id of a top-level feature of kind `kind`, which must have one.
pub fn req_id<'a>(id: &'a Option<String>, kind: &str) -> (r: Result<&'a str, Unsupported>)
    ensures
        match id {
            Some(s) => r matches Ok(t) && t@ == s@,
            None => r matches Err(u) && u.feature_id@ == "(無名)"@ && u.what@ == "トップレベルの"@
                + kind@ + "にはidが必要です"@,
        },
{
    match id {
        Some(s) => Ok(s.as_str()),
        None => {
            let what = "トップレベルの".to_owned();
            let what = what.concat(kind);
            let what = what.concat("にはidが必要です");
            Err(Unsupported { feature_id: "(無名)".to_owned(), what })
        },
    }
}

/// Decimal digits of `n`, most significant first.
pub open spec fn decimal(n: nat) -> Seq<char>
    decreases n,
{
    if n < 10 {
        seq![digit_char(n)]
    } else {
        decimal(n / 10) + seq![digit_char(n % 10)]
    }
}

pub open spec fn digit_char(d: nat) -> char {
    if d == 0 {
        '0'
    } else if d == 1 {
        '1'
    } else if d == 2 {
        '2'
    } else if d == 3 {
        '3'
    } else if d == 4 {
        '4'
    } else if d == 5 {
        '5'
    } else if d == 6 {
        '6'
    } else if d == 7 {
        '7'
    } else if d == 8 {
        '8'
    } else {
        '9'
    }
}

fn digit(d: usize) -> (c: char)
    requires
        d < 10,
    ensures
        c == digit_char(d as nat),
{
    if d == 0 {
        '0'
    } else if d == 1 {
        '1'
    } else if d == 2 {
        '2'
    } else if d == 3 {
        '3'
    } else if d == 4 {
        '4'
    } else if d == 5 {
        '5'
    } else if d == 6 {
        '6'
    } else if d == 7 {
        '7'
    } else if d == 8 {
        '8'
    } else {
        '9'
    }
}

/// Appends the decimal digits of `n` to `s`.
pub(crate) fn push_decimal(s: &mut String, n: usize)
    ensures
        final(s)@ == old(s)@ + decimal(n as nat),
    decreases n,
{
    if n < 10 {
        push_char(s, digit(n));
    } else {
        push_decimal(s, n / 10);
        push_char(s, digit(n % 10));
        proof {
            assert(final(s)@ =~= old(s)@ + decimal(n as nat));
        }
    }
}

/// The key of instance `i` of a linear or circular pattern: `<pattern>[i]`.
pub fn pattern_key(pattern: &str, i: usize) -> (k: String)
    ensures
        k@ == pattern@ + seq!['['] + decimal(i as nat) + seq![']'],
{
    let mut k = pattern.to_owned();
    push_char(&mut k, '[');
    push_decimal(&mut k, i);
    push_char(&mut k, ']');
    proof {
        assert(k@ =~= pattern@ + seq!['['] + decimal(i as nat) + seq![']']);
    }
    k
}

/// The key of instance `(i, j)` of a 2D pattern: `<pattern>[i][j]`.
pub fn pattern_key_2d(pattern: &str, i: usize, j: usize) -> (k: String)
    ensures
        k@ == pattern@ + seq!['['] + decimal(i as nat) + seq![']', '['] + decimal(j as nat) + seq![
            ']',
        ],
{
    let mut k = pattern.to_owned();
    push_char(&mut k, '[');
    push_decimal(&mut k, i);
    push_char(&mut k, ']');
    push_char(&mut k, '[');
    push_decimal(&mut k, j);
    push_char(&mut k, ']');
    proof {
        assert(k@ =~= pattern@ + seq!['['] + decimal(i as nat) + seq![']', '['] + decimal(
            j as nat,
        ) + seq![']']);
    }
    k
}

/// The ids of the datum anchors of a part, in declaration order.
pub open spec fn datum_ids_of(anchors: Seq<(Seq<char>, AnchorKindTag)>) -> Seq<Seq<char>>
    decreases anchors.len(),
{
    if anchors.len() == 0 {
        Seq::empty()
    } else {
        datum_ids_of(anchors.drop_last()) + if anchors.last().1 == AnchorKindTag::Datum {
            seq![anchors.last().0]
        } else {
            Seq::empty()
        }
    }
}

pub open spec fn anchor_views(a: Seq<(String, AnchorKindTag)>) -> Seq<(Seq<char>, AnchorKindTag)> {
    a.map_values(|x: (String, AnchorKindTag)| (x.0@, x.1))
}

/// The ids of the datum anchors among `anchors` (id and kind of each).
pub fn datum_ids(anchors: &Vec<(String, AnchorKindTag)>) -> (r: Vec<String>)
    ensures
        string_views(r@) == datum_ids_of(anchor_views(anchors@)),
{
    let ghost av = anchor_views(anchors@);
    let mut r: Vec<String> = Vec::new();
    let mut i: usize = 0;
    while i < anchors.len()
        invariant
            i <= anchors@.len(),
            av == anchor_views(anchors@),
            string_views(r@) == datum_ids_of(av.take(i as int)),
        decreases anchors@.len() - i,
    {
        proof {
            assert(av.take(i + 1).drop_last() =~= av.take(i as int));
            assert(av.take(i + 1).last() == av[i as int]);
        }
        if anchors[i].1 == AnchorKindTag::Datum {
            let ghost old_r = r@;
            let id = anchors[i].0.clone();
            r.push(id);
            proof {
                assert(string_views(r@) =~= string_views(old_r).push(id@));
            }
        }
        proof {
            assert(string_views(r@) =~= datum_ids_of(av.take(i + 1)));
        }
        i = i + 1;
    }
    proof {
        assert(av.take(i as int) =~= av);
    }
    r
}

/// An anchor declaration: id, kind, the feature that provides it and the
/// element that it names.
#[derive(Clone, Debug)]
pub struct AnchorDecl {
    pub id: String,
    pub kind: AnchorKindTag,
    pub feature: String,
    pub elem: ElemRef,
}

/// Binds the anchors in order: the key of each, or the error of the first one
/// that does not bind.
pub fn bind_anchors<F, E, A>(ledger: &Ledger<F, E, A>, anchors: &Vec<AnchorDecl>) -> (r: Result<
    Vec<(String, (String, String))>,
    BindError,
>)
    requires
        ledger.wf(),
    ensures
        match r {
            Ok(keys) => keys@.len() == anchors@.len() && forall|i: int|
                0 <= i < anchors@.len() ==> (#[trigger] keys@[i]).0@ == anchors@[i].id@ && bind_is(
                    *ledger,
                    anchors@[i].id@,
                    anchors@[i].kind,
                    anchors@[i].feature@,
                    anchors@[i].elem,
                    Ok(keys@[i].1),
                ),
            Err(e) => exists|i: int|
                0 <= i < anchors@.len() && bind_is(
                    *ledger,
                    anchors@[i].id@,
                    anchors@[i].kind,
                    anchors@[i].feature@,
                    anchors@[i].elem,
                    Err(e),
                ) && forall|j: int|
                    0 <= j < i ==> exists|k: (String, String)|
                        bind_is(
                            *ledger,
                            #[trigger] anchors@[j].id@,
                            anchors@[j].kind,
                            anchors@[j].feature@,
                            anchors@[j].elem,
                            Ok(k),
                        ),
        },
{
    let mut keys: Vec<(String, (String, String))> = Vec::new();
    let mut i: usize = 0;
    while i < anchors.len()
        invariant
            i <= anchors@.len(),
            ledger.wf(),
            keys@.len() == i,
            forall|j: int|
                0 <= j < i ==> (#[trigger] keys@[j]).0@ == anchors@[j].id@ && bind_is(
                    *ledger,
                    anchors@[j].id@,
                    anchors@[j].kind,
                    anchors@[j].feature@,
                    anchors@[j].elem,
                    Ok(keys@[j].1),
                ),
        decreases anchors@.len() - i,
    {
        let a = &anchors[i];
        match ledger.bind_anchor(a.id.as_str(), a.kind, a.feature.as_str(), &a.elem) {
            Ok(k) => {
                keys.push((a.id.clone(), k));
            },
            Err(e) => {
                proof {
                    assert forall|j: int| 0 <= j < i implies exists|k: (String, String)|
                        bind_is(
                            *ledger,
                            #[trigger] anchors@[j].id@,
                            anchors@[j].kind,
                            anchors@[j].feature@,
                            anchors@[j].elem,
                            Ok(k),
                        ) by {
                        assert(bind_is(
                            *ledger,
                            anchors@[j].id@,
                            anchors@[j].kind,
                            anchors@[j].feature@,
                            anchors@[j].elem,
                            Ok(keys@[j].1),
                        ));
                    }
                }
                return Err(e);
            },
        }
        i = i + 1;
    }
    Ok(keys)
}

} // verus!
