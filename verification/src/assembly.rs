//! Sequential assembly solving, apart from the geometry: which mates position
//! an instance, and the report of the degrees of freedom that they leave.
//! The count is the usual approximation per mate kind; an under-constrained
//! instance is normal at the concept stage and is only reported.
use vstd::prelude::*;
use crate::compile::{decimal, push_decimal};
use crate::text::string_views;

verus! {

broadcast use vstd::seq_lib::group_seq_properties;

/// The kind of a mate, without its value.
#[derive(Clone, Copy, Debug, PartialEq, Eq, Structural)]
pub enum MateTag {
    Coaxial,
    Coincident,
    Distance,
    Angle,
}

/// Degrees of freedom that one mate removes.
pub open spec fn spec_mate_weight(k: MateTag) -> nat {
    match k {
        MateTag::Coaxial => 4,
        MateTag::Coincident => 3,
        MateTag::Distance => 3,
        MateTag::Angle => 1,
    }
}

/// The note for one mate: `<mate id>: <kind>(-<weight>)`.
pub open spec fn spec_mate_note(id: Seq<char>, k: MateTag) -> Seq<char> {
    id + match k {
        MateTag::Coaxial => ": coaxial(-4)"@,
        MateTag::Coincident => ": coincident(-3)"@,
        MateTag::Distance => ": distance(-3)"@,
        MateTag::Angle => ": angle(-1)"@,
    }
}

/// Total removed freedom of a sequence of mates.
pub open spec fn total_weight(kinds: Seq<MateTag>) -> nat
    decreases kinds.len(),
{
    if kinds.len() == 0 {
        0
    } else {
        total_weight(kinds.drop_last()) + spec_mate_weight(kinds.last())
    }
}

/// Join of texts with a separator.
pub open spec fn join(parts: Seq<Seq<char>>, sep: Seq<char>) -> Seq<char>
    decreases parts.len(),
{
    if parts.len() == 0 {
        Seq::empty()
    } else if parts.len() == 1 {
        parts[0]
    } else {
        join(parts.drop_last(), sep) + sep + parts.last()
    }
}

/// The notes of a sequence of mates.
pub open spec fn mate_notes(ids: Seq<Seq<char>>, kinds: Seq<MateTag>) -> Seq<Seq<char>> {
    Seq::new(ids.len(), |i: int| spec_mate_note(ids[i], kinds[i]))
}

/// Remaining freedom: none for the ground instance, otherwise 6 less what the
/// mates remove (the sum saturates at 255), but not below 0.
pub open spec fn spec_remaining_dof(kinds: Seq<MateTag>, is_ground: bool) -> u8 {
    if is_ground {
        0
    } else if total_weight(kinds) >= 6 {
        0
    } else {
        (6 - total_weight(kinds)) as u8
    }
}

/// The DOF note: fixed for the ground, unconstrained when no mate positions
/// the instance, otherwise the mate notes joined by ", ".
pub open spec fn spec_dof_note(ids: Seq<Seq<char>>, kinds: Seq<MateTag>, is_ground: bool) -> Seq<
    char,
> {
    if is_ground {
        "ground(固定)"@
    } else if ids.len() == 0 {
        "未拘束(6DOF、構想段階では正常)"@
    } else {
        join(mate_notes(ids, kinds), ", "@)
    }
}

fn mate_note(id: &String, k: MateTag) -> (s: String)
    ensures
        s@ == spec_mate_note(id@, k),
{
    let s = id.clone();
    match k {
        MateTag::Coaxial => s.concat(": coaxial(-4)"),
        MateTag::Coincident => s.concat(": coincident(-3)"),
        MateTag::Distance => s.concat(": distance(-3)"),
        MateTag::Angle => s.concat(": angle(-1)"),
    }
}

fn mate_weight(k: MateTag) -> (w: u8)
    ensures
        w == spec_mate_weight(k),
{
    match k {
        MateTag::Coaxial => 4,
        MateTag::Coincident => 3,
        MateTag::Distance => 3,
        MateTag::Angle => 1,
    }
}

/// The remaining degrees of freedom of an instance and their note, from the
/// mates that position it (in declaration order: id and kind of each).
pub fn dof_report(mates: &Vec<(String, MateTag)>, is_ground: bool) -> (r: (u8, String))
    ensures
        r.0 == spec_remaining_dof(mates@.map_values(|m: (String, MateTag)| m.1), is_ground),
        r.1@ == spec_dof_note(
            mates@.map_values(|m: (String, MateTag)| m.0@),
            mates@.map_values(|m: (String, MateTag)| m.1),
            is_ground,
        ),
{
    let ghost ids = mates@.map_values(|m: (String, MateTag)| m.0@);
    let ghost kinds = mates@.map_values(|m: (String, MateTag)| m.1);
    let mut removed: u8 = 0;
    let mut joined = String::new();
    let mut i: usize = 0;
    while i < mates.len()
        invariant
            i <= mates@.len(),
            ids == mates@.map_values(|m: (String, MateTag)| m.0@),
            kinds == mates@.map_values(|m: (String, MateTag)| m.1),
            removed == (if total_weight(kinds.take(i as int)) > 255 {
                255
            } else {
                total_weight(kinds.take(i as int))
            }),
            joined@ == join(mate_notes(ids.take(i as int), kinds.take(i as int)), ", "@),
        decreases mates@.len() - i,
    {
        let (id, k) = (&mates[i].0, mates[i].1);
        proof {
            assert(kinds.take(i + 1).drop_last() =~= kinds.take(i as int));
            assert(kinds.take(i + 1).last() == k);
            let n1 = mate_notes(ids.take(i + 1), kinds.take(i + 1));
            let n0 = mate_notes(ids.take(i as int), kinds.take(i as int));
            assert(n1.drop_last() =~= n0);
            assert(n1.last() == spec_mate_note(id@, k));
        }
        let w = mate_weight(k);
        removed = removed.saturating_add(w);
        let note = mate_note(id, k);
        if i == 0 {
            joined = note;
            proof {
                assert(mate_notes(ids.take(1), kinds.take(1)).len() == 1);
            }
        } else {
            joined = joined.concat(", ");
            joined = joined.concat(note.as_str());
        }
        i = i + 1;
    }
    proof {
        assert(ids.take(i as int) =~= ids);
        assert(kinds.take(i as int) =~= kinds);
    }
    let remaining: u8 = if is_ground {
        0
    } else if removed >= 6 {
        0
    } else {
        6 - removed
    };
    let note = if is_ground {
        "ground(固定)".to_owned()
    } else if mates.len() == 0 {
        "未拘束(6DOF、構想段階では正常)".to_owned()
    } else {
        joined
    };
    (remaining, note)
}

/// The positions, in declaration order, of the mates that position instance
/// `v` (whose constrained side is `v`).
pub fn mates_into(edges: &Vec<(usize, usize)>, v: usize) -> (r: Vec<usize>)
    ensures
        forall|k: int| 0 <= k < r@.len() ==> #[trigger] r@[k] < edges@.len() && edges@[r@[k] as int].1 == v,
        forall|k: int, l: int| 0 <= k < l < r@.len() ==> #[trigger] r@[k] < #[trigger] r@[l],
        forall|i: int| 0 <= i < edges@.len() && (#[trigger] edges@[i]).1 == v ==> r@.contains(i as usize),
{
    let mut r: Vec<usize> = Vec::new();
    let mut i: usize = 0;
    while i < edges.len()
        invariant
            i <= edges@.len(),
            forall|k: int| 0 <= k < r@.len() ==> #[trigger] r@[k] < i && edges@[r@[k] as int].1 == v,
            forall|k: int, l: int| 0 <= k < l < r@.len() ==> #[trigger] r@[k] < #[trigger] r@[l],
            forall|j: int| 0 <= j < i && (#[trigger] edges@[j]).1 == v ==> r@.contains(j as usize),
        decreases edges@.len() - i,
    {
        if edges[i].1 == v {
            let ghost old_r = r@;
            r.push(i);
            proof {
                assert forall|j: int| 0 <= j < i + 1 && (#[trigger] edges@[j]).1 == v implies r@.contains(j as usize) by {
                    if j < i {
                        let k = choose|k: int| 0 <= k < old_r.len() && old_r[k] == j as usize;
                        assert(r@[k] == j as usize);
                    } else {
                        assert(r@[old_r.len() as int] == j as usize);
                    }
                }
            }
        }
        i = i + 1;
    }
    r
}


/// The line of the DOF report on standard error:
/// `dof<TAB><instance><TAB>残<remaining><TAB><note>`.
pub open spec fn spec_dof_line(instance: Seq<char>, remaining: u8, note: Seq<char>) -> Seq<char> {
    "dof\t"@ + instance + "\t残"@ + decimal(remaining as nat) + "\t"@ + note
}

pub fn dof_line(instance: &str, remaining: u8, note: &str) -> (r: String)
    ensures
        r@ == spec_dof_line(instance@, remaining, note@),
{
    let mut r = "dof\t".to_owned();
    r = r.concat(instance);
    r = r.concat("\t残");
    push_decimal(&mut r, remaining as usize);
    r = r.concat("\t");
    r.concat(note)
}


/// Law (degrees of freedom): the ground instance is fixed; an instance
/// without mates keeps all six degrees of freedom; a coaxial mate removes
/// four, a coincident or distance mate three, an angle mate one; another
/// mate never adds freedom.
pub proof fn law_remaining_dof(kinds: Seq<MateTag>, k: MateTag, id: Seq<char>)
    ensures
        spec_remaining_dof(kinds, true) == 0,
        spec_remaining_dof(Seq::empty(), false) == 6,
        spec_remaining_dof(seq![MateTag::Coaxial], false) == 2,
        spec_remaining_dof(seq![MateTag::Coincident], false) == 3,
        spec_remaining_dof(seq![MateTag::Distance], false) == 3,
        spec_remaining_dof(seq![MateTag::Angle], false) == 5,
        spec_remaining_dof(kinds.push(k), false) <= spec_remaining_dof(kinds, false),
        spec_remaining_dof(kinds.push(k), false) < spec_remaining_dof(kinds, false) || spec_remaining_dof(
            kinds,
            false,
        ) == 0,
        spec_dof_note(Seq::empty(), Seq::empty(), false) == "未拘束(6DOF、構想段階では正常)"@,
        spec_dof_note(seq![id], seq![MateTag::Coaxial], false) == id + ": coaxial(-4)"@,
        spec_dof_note(seq![id], seq![MateTag::Angle], true) == "ground(固定)"@,
{
    assert(kinds.push(k).drop_last() =~= kinds);
    assert(seq![MateTag::Coaxial].drop_last() =~= Seq::<MateTag>::empty());
    assert(total_weight(Seq::<MateTag>::empty()) == 0);
    assert(total_weight(seq![MateTag::Coaxial]) == 4);
    assert(seq![MateTag::Coincident].drop_last() =~= Seq::<MateTag>::empty());
    assert(seq![MateTag::Distance].drop_last() =~= Seq::<MateTag>::empty());
    assert(seq![MateTag::Angle].drop_last() =~= Seq::<MateTag>::empty());
    let ids = seq![id];
    let ks = seq![MateTag::Coaxial];
    assert(mate_notes(ids, ks) =~= seq![id + ": coaxial(-4)"@]);
}

} // verus!
