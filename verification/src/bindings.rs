//! The free variables of an expression: each name once, in the order in
//! which the names first appear.

use vstd::prelude::*;
use crate::ast::{Expr, Tree};

verus! {

/// The names that a list of strings holds.
pub open spec fn names(list: Seq<String>) -> Seq<Seq<char>> {
    Seq::new(list.len(), |i: int| list[i]@)
}

/// `acc`, followed by the names of `more` that `acc` lacks, each once and in
/// the order in which `more` first has them.
pub open spec fn absorb(acc: Seq<Seq<char>>, more: Seq<Seq<char>>) -> Seq<Seq<char>>
    decreases more.len(),
{
    if more.len() == 0 {
        acc
    } else {
        let sofar = absorb(acc, more.drop_last());
        if sofar.contains(more.last()) {
            sofar
        } else {
            sofar.push(more.last())
        }
    }
}

/// The names of `list`, each once, in the order of their first appearance.
pub open spec fn first_appearances(list: Seq<Seq<char>>) -> Seq<Seq<char>> {
    absorb(Seq::empty(), list)
}

/// The free variables of a tree.
pub open spec fn free_variables(tree: Tree) -> Seq<Seq<char>> {
    first_appearances(tree.leaves())
}

/// Whether `list` names every variable of `tree`.
pub open spec fn covers(list: Seq<Seq<char>>, tree: Tree) -> bool {
    forall|i: int| 0 <= i < tree.leaves().len() ==> list.contains(#[trigger] tree.leaves()[i])
}

/// Absorbing two lists one after the other is absorbing their
/// concatenation.
pub proof fn lemma_absorb_concat(acc: Seq<Seq<char>>, a: Seq<Seq<char>>, b: Seq<Seq<char>>)
    ensures
        absorb(acc, a + b) == absorb(absorb(acc, a), b),
    decreases b.len(),
{
    if b.len() == 0 {
        assert(a + b =~= a);
    } else {
        assert((a + b).drop_last() =~= a + b.drop_last());
        assert((a + b).last() == b.last());
        lemma_absorb_concat(acc, a, b.drop_last());
    }
}

/// Absorbing a single name appends it unless it is there already.
pub proof fn lemma_absorb_one(acc: Seq<Seq<char>>, name: Seq<char>)
    ensures
        absorb(acc, seq![name]) == if acc.contains(name) {
            acc
        } else {
            acc.push(name)
        },
{
    let one = seq![name];
    assert(one.drop_last() =~= Seq::<Seq<char>>::empty());
    assert(absorb(acc, one.drop_last()) == acc);
    assert(one.last() == name);
}

/// Absorbing keeps what was there, in its place.
pub proof fn lemma_absorb_keeps(acc: Seq<Seq<char>>, more: Seq<Seq<char>>)
    ensures
        acc.is_prefix_of(absorb(acc, more)),
    decreases more.len(),
{
    if more.len() > 0 {
        lemma_absorb_keeps(acc, more.drop_last());
    }
}

/// Absorbing adds at most as many names as there are to absorb.
pub proof fn lemma_absorb_len(acc: Seq<Seq<char>>, more: Seq<Seq<char>>)
    ensures
        absorb(acc, more).len() <= acc.len() + more.len(),
    decreases more.len(),
{
    if more.len() > 0 {
        lemma_absorb_len(acc, more.drop_last());
    }
}

/// After absorbing, the list holds the names of both lists and no others.
pub proof fn lemma_absorb_members(acc: Seq<Seq<char>>, more: Seq<Seq<char>>, name: Seq<char>)
    ensures
        absorb(acc, more).contains(name) <==> acc.contains(name) || more.contains(name),
    decreases more.len(),
{
    if more.len() > 0 {
        let front = more.drop_last();
        let sofar = absorb(acc, front);
        lemma_absorb_members(acc, front, name);
        if more.contains(name) {
            let i = choose|i: int| 0 <= i < more.len() && more[i] == name;
            if i < front.len() {
                assert(front[i] == name);
            } else {
                assert(more.last() == name);
            }
        }
        if front.contains(name) {
            let i = choose|i: int| 0 <= i < front.len() && front[i] == name;
            assert(more[i] == name);
        }
        if !sofar.contains(more.last()) {
            let grown = sofar.push(more.last());
            assert(grown[sofar.len() as int] == more.last());
            if sofar.contains(name) {
                let i = choose|i: int| 0 <= i < sofar.len() && sofar[i] == name;
                assert(grown[i] == name);
            }
        }
        assert(more[more.len() - 1] == more.last());
    }
}

/// Absorbing into a list without repetitions gives one without
/// repetitions.
pub proof fn lemma_absorb_distinct(acc: Seq<Seq<char>>, more: Seq<Seq<char>>)
    requires
        acc.no_duplicates(),
    ensures
        absorb(acc, more).no_duplicates(),
    decreases more.len(),
{
    if more.len() > 0 {
        lemma_absorb_distinct(acc, more.drop_last());
    }
}

/// The free variables of a tree are its variables, each exactly once.
pub proof fn lemma_free_variables(tree: Tree)
    ensures
        free_variables(tree).no_duplicates(),
        covers(free_variables(tree), tree),
        forall|name: Seq<char>|
            free_variables(tree).contains(name) <==> tree.leaves().contains(name),
{
    let empty = Seq::<Seq<char>>::empty();
    lemma_absorb_distinct(empty, tree.leaves());
    assert forall|name: Seq<char>|
        free_variables(tree).contains(name) <==> tree.leaves().contains(name) by {
        lemma_absorb_members(empty, tree.leaves(), name);
    }
}

/// In a list, a name that its front part holds first stands where it first
/// stands in the front part.
pub proof fn lemma_first_index_in_front(list: Seq<Seq<char>>, name: Seq<char>)
    requires
        list.len() > 0,
    ensures
        list.drop_last().contains(name) ==> list.index_of_first(name)
            == list.drop_last().index_of_first(name),
        !list.drop_last().contains(name) && list.last() == name ==> list.index_of_first(name)
            == Some(list.len() - 1),
{
    let front = list.drop_last();
    list.index_of_first_ensures(name);
    front.index_of_first_ensures(name);
    if front.contains(name) {
        let at = front.index_of_first(name)->Some_0;
        assert(list[at] == name);
        let found = list.index_of_first(name)->Some_0;
        if found < at {
            assert(front[found] == name);
        }
    } else if list.last() == name {
        assert(list[list.len() - 1] == name);
        let found = list.index_of_first(name)->Some_0;
        if found < list.len() - 1 {
            assert(front[found] == name);
        }
    }
}

/// First-appearance order: of two names in the result, the one that stands
/// earlier is the one that `list` has earlier.
pub proof fn lemma_first_appearance_order(list: Seq<Seq<char>>, i: int, j: int)
    requires
        0 <= i < j < first_appearances(list).len(),
    ensures
        list.index_of_first(first_appearances(list)[i]) is Some,
        list.index_of_first(first_appearances(list)[j]) is Some,
        list.index_of_first(first_appearances(list)[i])->Some_0 < list.index_of_first(
            first_appearances(list)[j],
        )->Some_0,
    decreases list.len(),
{
    let empty = Seq::<Seq<char>>::empty();
    let found = first_appearances(list);
    if list.len() > 0 {
        let front = list.drop_last();
        let sofar = first_appearances(front);
        lemma_absorb_members(empty, front, found[i]);
        lemma_absorb_members(empty, front, found[j]);
        lemma_absorb_members(empty, front, list.last());
        lemma_first_index_in_front(list, found[i]);
        lemma_first_index_in_front(list, found[j]);
        front.index_of_first_ensures(found[i]);
        if j < sofar.len() {
            assert(sofar[i] == found[i] && sofar[j] == found[j]);
            lemma_first_appearance_order(front, i, j);
        } else {
            assert(found == sofar.push(list.last()));
            assert(found[j] == list.last());
            assert(sofar[i] == found[i]);
            assert(sofar.contains(found[i]));
        }
    }
}

/// The index at which `name` first stands in `list`.
pub fn position(list: &Vec<String>, name: &String) -> (out: Option<usize>)
    ensures
        match names(list@).index_of_first(name@) {
            Some(index) => out is Some && out->Some_0 == index && 0 <= index < list@.len(),
            None => out is None,
        },
{
    let ghost all = names(list@);
    let mut i: usize = 0;
    while i < list.len()
        invariant
            i <= list@.len(),
            all == names(list@),
            forall|j: int| 0 <= j < i ==> all[j] != name@,
        decreases list@.len() - i,
    {
        if list[i] == *name {
            proof {
                assert(all[i as int] == name@);
                all.index_of_first_ensures(name@);
            }
            return Some(i);
        }
        i += 1;
    }
    proof {
        all.index_of_first_ensures(name@);
    }
    None
}

impl Expr {
    /// Appends to `bindings` the variables of the expression that it lacks,
    /// in the order in which the expression first names them.
    pub fn extend_bindings(&self, bindings: &mut Vec<String>)
        ensures
            names(final(bindings)@) == absorb(names(old(bindings)@), self@.leaves()),
        decreases self,
    {
        match self {
            Expr::Var(name) => {
                proof {
                    lemma_absorb_one(names(bindings@), name@);
                    names(bindings@).index_of_first_ensures(name@);
                }
                if position(bindings, name).is_none() {
                    let ghost before = names(bindings@);
                    bindings.push(name.clone());
                    assert(names(bindings@) =~= before.push(name@));
                }
            },
            Expr::Val(_) => {},
            Expr::UnOp { expr, .. } => {
                expr.extend_bindings(bindings);
            },
            Expr::BinOp { lhs, rhs, .. } => {
                proof {
                    lemma_absorb_concat(names(bindings@), lhs@.leaves(), rhs@.leaves());
                }
                lhs.extend_bindings(bindings);
                rhs.extend_bindings(bindings);
            },
        }
    }

    /// The free variables of the expression: each name once, in the order of
    /// first appearance, left to right.
    pub fn extract_bindings(&self) -> (out: Vec<String>)
        ensures
            names(out@) == free_variables(self@),
    {
        let mut out: Vec<String> = Vec::new();
        assert(names(out@) =~= Seq::<Seq<char>>::empty());
        self.extend_bindings(&mut out);
        out
    }
}

} // verus!
