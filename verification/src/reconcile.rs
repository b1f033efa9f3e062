//! Reconciliation of a node's input slots with a new binding list.
//!
//! Slot 0 takes the expression text; slot `i + 1` takes the value of the
//! binding with index `i`. When the binding list changes, a connection
//! follows the name of its slot: it stays, moves to the slot that the name
//! has in the new list, or is dropped with the name.

use vstd::prelude::*;
use crate::bindings::{names, position};

verus! {

/// An output of some node of the graph: where a connection comes from.
#[derive(Clone, Copy, Debug, PartialEq, Eq, Structural)]
pub struct SourceId {
    pub node: usize,
    pub output: usize,
}

/// The move of the connections of one slot to another slot.
#[derive(Clone, Copy, Debug, PartialEq, Eq, Structural)]
pub struct Migration {
    pub from: usize,
    pub to: usize,
}

/// What becomes of the connections of an old slot.
pub enum Fate {
    Kept,
    Dropped,
    Moved(nat),
}

/// The fate of the slot of the old binding with index `i`: by its name
/// alone.
pub open spec fn fate(old_list: Seq<Seq<char>>, new_list: Seq<Seq<char>>, i: int) -> Fate {
    match new_list.index_of_first(old_list[i]) {
        None => Fate::Dropped,
        Some(j) => if j == i {
            Fate::Kept
        } else {
            Fate::Moved((j + 1) as nat)
        },
    }
}

/// The slots, among those of the first `upto` old bindings, that are
/// dropped, in ascending order.
pub open spec fn drops(old_list: Seq<Seq<char>>, new_list: Seq<Seq<char>>, upto: nat) -> Seq<nat>
    decreases upto,
{
    if upto == 0 {
        Seq::empty()
    } else {
        let front = drops(old_list, new_list, (upto - 1) as nat);
        if fate(old_list, new_list, upto - 1) is Dropped {
            front.push(upto)
        } else {
            front
        }
    }
}

/// The moves of the slots of the first `upto` old bindings, as pairs of the
/// old and the new slot, in ascending order of the old slot.
pub open spec fn moves(old_list: Seq<Seq<char>>, new_list: Seq<Seq<char>>, upto: nat) -> Seq<
    (nat, nat),
>
    decreases upto,
{
    if upto == 0 {
        Seq::empty()
    } else {
        let front = moves(old_list, new_list, (upto - 1) as nat);
        match fate(old_list, new_list, upto - 1) {
            Fate::Moved(to) => front.push((upto, to)),
            _ => front,
        }
    }
}

/// The value that `name` carries over from the old bindings: the one bound
/// to it there, and zero for a name that is new.
pub open spec fn carried(old_list: Seq<Seq<char>>, old_values: Seq<u64>, name: Seq<char>) -> u64 {
    match old_list.index_of_first(name) {
        Some(i) => if i < old_values.len() {
            old_values[i]
        } else {
            0
        },
        None => 0,
    }
}

/// The values of the new bindings.
pub open spec fn carried_values(
    old_list: Seq<Seq<char>>,
    old_values: Seq<u64>,
    new_list: Seq<Seq<char>>,
) -> Seq<u64> {
    Seq::new(new_list.len(), |j: int| carried(old_list, old_values, new_list[j]))
}

/// The connections of each slot.
pub open spec fn wires(connections: Seq<Vec<SourceId>>) -> Seq<Seq<SourceId>> {
    Seq::new(connections.len(), |slot: int| connections[slot]@)
}

/// The connections of `slot`; none where the map has no such slot.
pub open spec fn sources_of(map: Seq<Seq<SourceId>>, slot: int) -> Seq<SourceId> {
    if 0 <= slot < map.len() {
        map[slot]
    } else {
        Seq::empty()
    }
}

/// The connections of a slot of the new map: slot 0 keeps its own, the slot
/// of a name that the old list has takes those of the name's old slot, and
/// the slot of a new name has none.
pub open spec fn rewired_slot(
    old_list: Seq<Seq<char>>,
    new_list: Seq<Seq<char>>,
    map: Seq<Seq<SourceId>>,
    slot: int,
) -> Seq<SourceId> {
    if slot == 0 {
        sources_of(map, 0)
    } else {
        match old_list.index_of_first(new_list[slot - 1]) {
            Some(i) => sources_of(map, i + 1),
            None => Seq::empty(),
        }
    }
}

/// The connection map after reconciliation: one slot for the text and one
/// for each new binding.
pub open spec fn rewired(
    old_list: Seq<Seq<char>>,
    new_list: Seq<Seq<char>>,
    map: Seq<Seq<SourceId>>,
) -> Seq<Seq<SourceId>> {
    Seq::new(new_list.len() + 1, |slot: int| rewired_slot(old_list, new_list, map, slot))
}

/// What a reconciliation asks of the graph.
#[derive(Clone, Debug, PartialEq, Eq)]
pub struct Rewiring {
    /// The old slots whose connections are dropped, ascending.
    pub drops: Vec<usize>,
    /// The old slots whose connections move, ascending, each with its new
    /// slot.
    pub migrations: Vec<Migration>,
    /// The number of slots after the change.
    pub slot_count: usize,
    /// The connections of each slot after the change.
    pub connections: Vec<Vec<SourceId>>,
}

/// The moves that a list of migrations holds.
pub open spec fn pairs(migrations: Seq<Migration>) -> Seq<(nat, nat)> {
    Seq::new(migrations.len(), |i: int| (migrations[i].from as nat, migrations[i].to as nat))
}

/// The slots that a list holds.
pub open spec fn slots(list: Seq<usize>) -> Seq<nat> {
    Seq::new(list.len(), |i: int| list[i] as nat)
}

impl Rewiring {
    /// Whether this is the reconciliation of `map` from `old_list` to
    /// `new_list`.
    pub open spec fn is_reconciliation(
        &self,
        old_list: Seq<Seq<char>>,
        new_list: Seq<Seq<char>>,
        map: Seq<Seq<SourceId>>,
    ) -> bool {
        &&& slots(self.drops@) == drops(old_list, new_list, old_list.len())
        &&& pairs(self.migrations@) == moves(old_list, new_list, old_list.len())
        &&& self.slot_count == new_list.len() + 1
        &&& wires(self.connections@) == rewired(old_list, new_list, map)
    }
}

/// The dropped slots are those of the old names that the new list lacks,
/// each once and in ascending order.
pub proof fn lemma_drops(old_list: Seq<Seq<char>>, new_list: Seq<Seq<char>>, upto: nat)
    ensures
        forall|slot: nat|
            drops(old_list, new_list, upto).contains(slot) <==> 1 <= slot <= upto && !new_list.contains(
                old_list[slot - 1],
            ),
        forall|a: int, b: int|
            0 <= a < b < drops(old_list, new_list, upto).len() ==> drops(old_list, new_list, upto)[a]
                < drops(old_list, new_list, upto)[b],
        forall|a: int|
            0 <= a < drops(old_list, new_list, upto).len() ==> 1 <= #[trigger] drops(
                old_list,
                new_list,
                upto,
            )[a] <= upto,
    decreases upto,
{
    let all = drops(old_list, new_list, upto);
    if upto > 0 {
        let front = drops(old_list, new_list, (upto - 1) as nat);
        lemma_drops(old_list, new_list, (upto - 1) as nat);
        new_list.index_of_first_ensures(old_list[upto - 1]);
        assert forall|slot: nat| all.contains(slot) <==> 1 <= slot <= upto && !new_list.contains(
            old_list[slot - 1],
        ) by {
            if all.contains(slot) {
                let a = choose|a: int| 0 <= a < all.len() && all[a] == slot;
                if a < front.len() {
                    assert(front[a] == slot);
                    assert(front.contains(slot));
                }
            }
            if 1 <= slot <= upto && !new_list.contains(old_list[slot - 1]) {
                if slot < upto {
                    assert(front.contains(slot));
                    let a = choose|a: int| 0 <= a < front.len() && front[a] == slot;
                    assert(all[a] == slot);
                } else {
                    assert(all[all.len() - 1] == slot);
                }
            }
        }
    }
}

/// The moves are those of the old names that the new list has at another
/// index, each once and in ascending order of the old slot; a name moves to
/// the slot of its first index in the new list.
pub proof fn lemma_moves(old_list: Seq<Seq<char>>, new_list: Seq<Seq<char>>, upto: nat)
    ensures
        forall|from: nat, to: nat|
            moves(old_list, new_list, upto).contains((from, to)) <==> 1 <= from <= upto
                && new_list.index_of_first(old_list[from - 1]) == Some(to - 1) && to != from,
        forall|a: int, b: int|
            0 <= a < b < moves(old_list, new_list, upto).len() ==> moves(old_list, new_list, upto)[a].0
                < moves(old_list, new_list, upto)[b].0,
        forall|a: int|
            0 <= a < moves(old_list, new_list, upto).len() ==> 1 <= (#[trigger] moves(
                old_list,
                new_list,
                upto,
            )[a]).0 <= upto,
    decreases upto,
{
    let all = moves(old_list, new_list, upto);
    if upto > 0 {
        let front = moves(old_list, new_list, (upto - 1) as nat);
        lemma_moves(old_list, new_list, (upto - 1) as nat);
        new_list.index_of_first_ensures(old_list[upto - 1]);
        assert forall|from: nat, to: nat|
            all.contains((from, to)) <==> 1 <= from <= upto && new_list.index_of_first(
                old_list[from - 1],
            ) == Some(to - 1) && to != from by {
            if all.contains((from, to)) {
                let a = choose|a: int| 0 <= a < all.len() && all[a] == (from, to);
                if a < front.len() {
                    assert(front[a] == (from, to));
                    assert(front.contains((from, to)));
                }
            }
            if 1 <= from <= upto && new_list.index_of_first(old_list[from - 1]) == Some(to - 1)
                && to != from {
                if from < upto {
                    assert(front.contains((from, to)));
                    let a = choose|a: int| 0 <= a < front.len() && front[a] == (from, to);
                    assert(all[a] == (from, to));
                } else {
                    assert(all[all.len() - 1] == (from, to));
                }
            }
        }
    }
}

/// Connections follow names. Where no name stands twice in either list, the
/// slot of an old name that the new list has, at whatever index, gets the
/// connections that the name's old slot had, and the slot of a name that is
/// new gets none.
pub proof fn lemma_rewired_follows_names(
    old_list: Seq<Seq<char>>,
    new_list: Seq<Seq<char>>,
    map: Seq<Seq<SourceId>>,
)
    requires
        old_list.no_duplicates(),
        new_list.no_duplicates(),
    ensures
        rewired(old_list, new_list, map).len() == new_list.len() + 1,
        rewired(old_list, new_list, map)[0] == sources_of(map, 0),
        forall|i: int, j: int|
            0 <= i < old_list.len() && 0 <= j < new_list.len() && old_list[i] == new_list[j]
                ==> rewired(old_list, new_list, map)[j + 1] == sources_of(map, i + 1),
        forall|j: int|
            0 <= j < new_list.len() && !old_list.contains(new_list[j]) ==> rewired(
                old_list,
                new_list,
                map,
            )[j + 1] == Seq::<SourceId>::empty(),
{
    let after = rewired(old_list, new_list, map);
    assert forall|i: int, j: int|
        0 <= i < old_list.len() && 0 <= j < new_list.len() && old_list[i] == new_list[j]
            implies after[j + 1] == sources_of(map, i + 1) by {
        old_list.index_of_first_ensures(new_list[j]);
    }
    assert forall|j: int|
        0 <= j < new_list.len() && !old_list.contains(new_list[j]) implies after[j + 1]
            == Seq::<SourceId>::empty() by {
        old_list.index_of_first_ensures(new_list[j]);
    }
}

/// Values follow names. Where no name stands twice in the old list and
/// every old name has a value, a name that the old list has keeps its
/// value, and a name that is new gets zero.
pub proof fn lemma_carried_values_follow_names(
    old_list: Seq<Seq<char>>,
    old_values: Seq<u64>,
    new_list: Seq<Seq<char>>,
)
    requires
        old_list.no_duplicates(),
        old_values.len() == old_list.len(),
    ensures
        carried_values(old_list, old_values, new_list).len() == new_list.len(),
        forall|i: int, j: int|
            0 <= i < old_list.len() && 0 <= j < new_list.len() && old_list[i] == new_list[j]
                ==> carried_values(old_list, old_values, new_list)[j] == old_values[i],
        forall|j: int|
            0 <= j < new_list.len() && !old_list.contains(new_list[j]) ==> carried_values(
                old_list,
                old_values,
                new_list,
            )[j] == 0,
{
    let after = carried_values(old_list, old_values, new_list);
    assert forall|i: int, j: int|
        0 <= i < old_list.len() && 0 <= j < new_list.len() && old_list[i] == new_list[j]
            implies after[j] == old_values[i] by {
        old_list.index_of_first_ensures(new_list[j]);
    }
    assert forall|j: int|
        0 <= j < new_list.len() && !old_list.contains(new_list[j]) implies after[j] == 0 by {
        old_list.index_of_first_ensures(new_list[j]);
    }
}

/// A copy of a list of sources.
fn copy_sources(list: &Vec<SourceId>) -> (out: Vec<SourceId>)
    ensures
        out@ == list@,
{
    let mut out: Vec<SourceId> = Vec::new();
    let mut i: usize = 0;
    while i < list.len()
        invariant
            i <= list@.len(),
            out@ == list@.take(i as int),
        decreases list@.len() - i,
    {
        out.push(list[i]);
        assert(out@ =~= list@.take(i + 1));
        i += 1;
    }
    assert(list@.take(list@.len() as int) =~= list@);
    out
}

/// The values of the new bindings: each name keeps the value that it had,
/// and a name that is new gets zero, which as a bit pattern is the number
/// 0.0.
pub fn carry_values(old_bindings: &Vec<String>, old_values: &Vec<u64>, new_bindings: &Vec<String>)
    -> (out: Vec<u64>)
    ensures
        out@ == carried_values(names(old_bindings@), old_values@, names(new_bindings@)),
{
    let ghost old_list = names(old_bindings@);
    let ghost new_list = names(new_bindings@);
    let mut out: Vec<u64> = Vec::new();
    let mut j: usize = 0;
    while j < new_bindings.len()
        invariant
            j <= new_bindings@.len(),
            old_list == names(old_bindings@),
            new_list == names(new_bindings@),
            out@ == carried_values(old_list, old_values@, new_list).take(j as int),
        decreases new_bindings@.len() - j,
    {
        let value: u64 = match position(old_bindings, &new_bindings[j]) {
            Some(i) => if i < old_values.len() {
                old_values[i]
            } else {
                0
            },
            None => 0,
        };
        out.push(value);
        assert(out@ =~= carried_values(old_list, old_values@, new_list).take(j + 1));
        j += 1;
    }
    assert(out@ =~= carried_values(old_list, old_values@, new_list));
    out
}

/// The connection map after the change from `old_bindings` to
/// `new_bindings`.
fn rewire(
    old_bindings: &Vec<String>,
    new_bindings: &Vec<String>,
    connections: &Vec<Vec<SourceId>>,
) -> (out: Vec<Vec<SourceId>>)
    ensures
        wires(out@) == rewired(names(old_bindings@), names(new_bindings@), wires(connections@)),
{
    let ghost old_list = names(old_bindings@);
    let ghost new_list = names(new_bindings@);
    let ghost map = wires(connections@);
    let mut out: Vec<Vec<SourceId>> = Vec::new();
    let text_sources = if connections.len() > 0 {
        copy_sources(&connections[0])
    } else {
        Vec::new()
    };
    out.push(text_sources);
    assert(wires(out@) =~= rewired(old_list, new_list, map).take(1));
    let mut j: usize = 0;
    while j < new_bindings.len()
        invariant
            j <= new_bindings@.len(),
            old_list == names(old_bindings@),
            new_list == names(new_bindings@),
            map == wires(connections@),
            wires(out@) == rewired(old_list, new_list, map).take(j + 1),
        decreases new_bindings@.len() - j,
    {
        let sources = match position(old_bindings, &new_bindings[j]) {
            Some(i) => if connections.len() > 0 && i < connections.len() - 1 {
                copy_sources(&connections[i + 1])
            } else {
                Vec::new()
            },
            None => Vec::new(),
        };
        let ghost before = wires(out@);
        assert(new_list[j as int] == new_bindings@[j as int]@);
        assert(sources@ == rewired_slot(old_list, new_list, map, j + 1));
        out.push(sources);
        assert(wires(out@) =~= before.push(sources@));
        assert(wires(out@) =~= rewired(old_list, new_list, map).take(j + 2));
        j += 1;
    }
    assert(wires(out@) =~= rewired(old_list, new_list, map));
    out
}

/// Reconciles the connections of a node whose binding list changes from
/// `old_bindings` to `new_bindings`. Every old slot is judged once, in
/// ascending order and by its name alone; the new connection map is made
/// from the old one and shares nothing with it. The new slots must be
/// countable: there is one more of them than there are new bindings.
pub fn reconcile(
    old_bindings: &Vec<String>,
    new_bindings: &Vec<String>,
    connections: &Vec<Vec<SourceId>>,
) -> (out: Rewiring)
    requires
        new_bindings@.len() < usize::MAX,
    ensures
        out.is_reconciliation(names(old_bindings@), names(new_bindings@), wires(connections@)),
{
    let ghost old_list = names(old_bindings@);
    let ghost new_list = names(new_bindings@);
    let mut dropped: Vec<usize> = Vec::new();
    let mut migrations: Vec<Migration> = Vec::new();
    let mut i: usize = 0;
    while i < old_bindings.len()
        invariant
            i <= old_bindings@.len(),
            new_bindings@.len() < usize::MAX,
            old_list == names(old_bindings@),
            new_list == names(new_bindings@),
            slots(dropped@) == drops(old_list, new_list, i as nat),
            pairs(migrations@) == moves(old_list, new_list, i as nat),
        decreases old_bindings@.len() - i,
    {
        let ghost dropped_before = slots(dropped@);
        let ghost moved_before = pairs(migrations@);
        match position(new_bindings, &old_bindings[i]) {
            None => {
                dropped.push(i + 1);
                assert(slots(dropped@) =~= dropped_before.push((i + 1) as nat));
            },
            Some(j) => {
                if j != i {
                    migrations.push(Migration { from: i + 1, to: j + 1 });
                    assert(pairs(migrations@) =~= moved_before.push(
                        ((i + 1) as nat, (j + 1) as nat),
                    ));
                }
            },
        }
        i += 1;
    }
    Rewiring {
        drops: dropped,
        migrations,
        slot_count: new_bindings.len() + 1,
        connections: rewire(old_bindings, new_bindings, connections),
    }
}

} // verus!
