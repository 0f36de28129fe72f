//! The rendered list: visual order, hover feedback, and drop relocation.
//!
//! A [`ListView`] holds one rendered element per item, in the order the user
//! sees. Hover operations toggle the drag-over indicator of exactly the
//! element they are given; [`ListView::handle_drop`] relocates the dragged
//! element to sit immediately before the drop target. The backing item data
//! is never re-sorted: this order is display state only.

use vstd::prelude::*;

verus! {

use crate::errors::DragError;
use crate::gesture::HoverEvent;
use crate::gesture::apply_hover;
use crate::identity::id_of;
use crate::identity::key_chars;
use crate::identity::lemma_key_chars_injective;
use crate::session::TransferChannel;
use crate::session::resolve_dragged_key;
use crate::user::User;

/// One rendered list element: the item it stands for, and whether it
/// currently shows the drag-over indicator.
#[derive(Clone, Copy, Debug, PartialEq, Eq, Structural)]
pub struct Rendered {
    pub id: i64,
    pub hover: bool,
}

/// `r` with its hover flag set to `b`.
pub open spec fn with_hover(r: Rendered, b: bool) -> Rendered {
    Rendered { id: r.id, hover: b }
}

/// The item ids of a run of rendered elements, in order.
pub open spec fn ids_of(s: Seq<Rendered>) -> Seq<i64> {
    s.map_values(|r: Rendered| r.id)
}

/// The hover flags of a run of rendered elements, in order.
pub open spec fn hovers_of(s: Seq<Rendered>) -> Seq<bool> {
    s.map_values(|r: Rendered| r.hover)
}

/// The sequence after relocating the element at `from` to sit immediately
/// before the element at `to`: a single detach and re-insert, nothing else.
pub open spec fn move_before<A>(s: Seq<A>, from: int, to: int) -> Seq<A> {
    s.remove(from).insert(
        if from < to {
            to - 1
        } else {
            to
        },
        s[from],
    )
}

/// The sequence after relocating the element at `from` to the end.
pub open spec fn move_to_end<A>(s: Seq<A>, from: int) -> Seq<A> {
    s.remove(from).push(s[from])
}

/// Where a drop landed: on a current list element, or on the container
/// itself (between elements or past the end).
#[derive(Clone, Copy, Debug, PartialEq, Eq, Structural)]
pub enum DropTarget {
    Element(usize),
    Container,
}

/// What a completed drop did.
#[derive(Clone, Copy, Debug, PartialEq, Eq, Structural)]
pub enum DropOutcome {
    /// The dragged element was relocated (dropping it onto itself leaves
    /// the order unchanged).
    Moved,
    /// No drag session was active; nothing happened.
    NoSession,
}

/// The elements after the hover clearing that every drop performs on its
/// target, whether or not the relocation succeeds: a drop on an element
/// clears that element's indicator; a drop on the container touches none.
pub open spec fn cleared_target(s: Seq<Rendered>, target: DropTarget) -> Seq<Rendered> {
    match target {
        DropTarget::Element(j) => s.update(j as int, with_hover(s[j as int], false)),
        DropTarget::Container => s,
    }
}

/// The elements after a successful drop of the element carrying `id`:
/// the drop target's hover indicator is cleared and the dragged element is
/// relocated before it (or to the end, for a drop on the container).
pub open spec fn drop_result(s: Seq<Rendered>, id: i64, target: DropTarget) -> Seq<Rendered> {
    let from = ids_of(s).index_of(id);
    match target {
        DropTarget::Element(j) => move_before(
            s.update(j as int, with_hover(s[j as int], false)),
            from,
            j as int,
        ),
        DropTarget::Container => move_to_end(s, from),
    }
}

/// The position in `s` that position `p` of
/// `s.remove(from).insert(dest, s[from])` came from.
spec fn reloc_src(from: int, dest: int, p: int) -> int {
    if p == dest {
        from
    } else {
        let q = if p < dest {
            p
        } else {
            p - 1
        };
        if q < from {
            q
        } else {
            q + 1
        }
    }
}

/// Relocation is a permutation: position `p` of the result holds the
/// original element at `reloc_src(from, dest, p)`, and distinct positions
/// come from distinct origins.
proof fn lemma_relocate_indexes<A>(s: Seq<A>, from: int, dest: int)
    requires
        0 <= from < s.len(),
        0 <= dest <= s.len() - 1,
    ensures
        s.remove(from).insert(dest, s[from]).len() == s.len(),
        forall|p: int|
            0 <= p < s.len() ==> #[trigger] s.remove(from).insert(dest, s[from])[p] == s[reloc_src(
                from,
                dest,
                p,
            )],
        forall|p: int| 0 <= p < s.len() ==> 0 <= #[trigger] reloc_src(from, dest, p) < s.len(),
        forall|p: int, q: int|
            0 <= p < s.len() && 0 <= q < s.len() && p != q ==> #[trigger] reloc_src(from, dest, p)
                != #[trigger] reloc_src(from, dest, q),
{
    let u = s.remove(from);
    let x = s[from];
    let t = u.insert(dest, x);
    assert forall|p: int| 0 <= p < t.len() implies #[trigger] t[p] == s[reloc_src(from, dest, p)] by {
        if p == dest {
            assert(t[p] == x);
        } else {
            let q = if p < dest {
                p
            } else {
                p - 1
            };
            assert(t[p] == u[q]);
            if q < from {
                assert(u[q] == s[q]);
            } else {
                assert(u[q] == s[q + 1]);
            }
        }
    }
}

/// Relocation only permutes, so distinct ids stay distinct.
proof fn lemma_relocate_no_dup(s: Seq<Rendered>, from: int, dest: int)
    requires
        0 <= from < s.len(),
        0 <= dest <= s.len() - 1,
        ids_of(s).no_duplicates(),
    ensures
        ids_of(s.remove(from).insert(dest, s[from])).no_duplicates(),
{
    let t = s.remove(from).insert(dest, s[from]);
    lemma_relocate_indexes(s, from, dest);
    assert forall|p: int, q: int|
        0 <= p < t.len() && 0 <= q < t.len() && p != q implies ids_of(t)[p] != ids_of(t)[q] by {
        let sp = reloc_src(from, dest, p);
        let sq = reloc_src(from, dest, q);
        assert(t[p] == s[sp]);
        assert(t[q] == s[sq]);
        assert(ids_of(s)[sp] != ids_of(s)[sq]);
        assert(ids_of(t)[p] == t[p].id);
        assert(ids_of(t)[q] == t[q].id);
    }
}

/// Finds the element standing for `id`, scanning the container's own
/// children only.
fn find_index(items: &Vec<Rendered>, id: i64) -> (r: Option<usize>)
    ensures
        match r {
            Some(i) => i < items@.len() && items@[i as int].id == id,
            None => forall|j: int| 0 <= j < items@.len() ==> items@[j].id != id,
        },
{
    let mut i: usize = 0;
    while i < items.len()
        invariant
            i <= items.len(),
            forall|j: int| 0 <= j < i as int ==> items@[j].id != id,
        decreases items.len() - i,
    {
        if items[i].id == id {
            return Some(i);
        }
        i = i + 1;
    }
    None
}

/// The ordered run of rendered elements under one shared container.
pub struct ListView {
    pub items: Vec<Rendered>,
}

impl ListView {
    /// The rendered elements in visual order.
    pub open spec fn elems(&self) -> Seq<Rendered> {
        self.items@
    }

    /// The item ids in visual order: the order the user perceives.
    pub open spec fn ids(&self) -> Seq<i64> {
        ids_of(self.items@)
    }

    /// The hover flags in visual order.
    pub open spec fn hovers(&self) -> Seq<bool> {
        hovers_of(self.items@)
    }

    /// Every element stands for a distinct item, so an identity key picks
    /// out at most one element.
    pub open spec fn wf(&self) -> bool {
        self.ids().no_duplicates()
    }

    /// Renders one element per item, in order, with no hover indicator.
    pub fn from_users(users: &Vec<User>) -> (lv: ListView)
        requires
            users@.map_values(|u: User| u.id).no_duplicates(),
        ensures
            lv.wf(),
            lv.ids() == users@.map_values(|u: User| u.id),
            lv.hovers() == Seq::new(users@.len(), |i: int| false),
    {
        let mut items: Vec<Rendered> = Vec::new();
        let mut i: usize = 0;
        while i < users.len()
            invariant
                i <= users.len(),
                items@.len() == i as int,
                forall|j: int|
                    0 <= j < i as int ==> items@[j] == (Rendered {
                        id: users@[j].id,
                        hover: false,
                    }),
            decreases users.len() - i,
        {
            let id = users[i].id;
            items.push(Rendered { id, hover: false });
            i = i + 1;
        }
        let lv = ListView { items };
        proof {
            assert(lv.ids() =~= users@.map_values(|u: User| u.id));
            assert(lv.hovers() =~= Seq::new(users@.len(), |i: int| false));
        }
        lv
    }

    /// Shows the drag-over indicator on the element at `target`.
    ///
    /// Idempotent, and touches no element other than the one it is given.
    pub fn drag_enter(&mut self, target: usize)
        requires
            target < old(self).elems().len(),
        ensures
            final(self).elems() == old(self).elems().update(
                target as int,
                with_hover(old(self).elems()[target as int], true),
            ),
            final(self).ids() == old(self).ids(),
            final(self).hovers() == old(self).hovers().update(target as int, true),
            final(self).hovers() == apply_hover(old(self).hovers(), HoverEvent::Enter(target)),
            final(self).wf() == old(self).wf(),
    {
        let elt = &mut self.items[target];
        elt.hover = true;
        proof {
            assert(self.items@ == old(self).elems().update(
                target as int,
                with_hover(old(self).elems()[target as int], true),
            ));
            assert(self.ids() =~= old(self).ids());
            assert(self.hovers() =~= old(self).hovers().update(target as int, true));
        }
    }

    /// Removes the drag-over indicator from the element at `target`.
    ///
    /// Idempotent, and touches no element other than the one it is given.
    /// A drop on an element clears its indicator the same way.
    pub fn drag_leave(&mut self, target: usize)
        requires
            target < old(self).elems().len(),
        ensures
            final(self).elems() == old(self).elems().update(
                target as int,
                with_hover(old(self).elems()[target as int], false),
            ),
            final(self).ids() == old(self).ids(),
            final(self).hovers() == old(self).hovers().update(target as int, false),
            final(self).hovers() == apply_hover(old(self).hovers(), HoverEvent::Leave(target)),
            final(self).wf() == old(self).wf(),
    {
        let elt = &mut self.items[target];
        elt.hover = false;
        proof {
            assert(self.items@ == old(self).elems().update(
                target as int,
                with_hover(old(self).elems()[target as int], false),
            ));
            assert(self.ids() =~= old(self).ids());
            assert(self.hovers() =~= old(self).hovers().update(target as int, false));
        }
    }

    /// How many elements the list shows.
    pub fn len(&self) -> (n: usize)
        ensures
            n == self.elems().len(),
    {
        self.items.len()
    }

    /// The id of the element at position `i`.
    pub fn id_at(&self, i: usize) -> (id: i64)
        requires
            i < self.elems().len(),
        ensures
            id == self.ids()[i as int],
    {
        self.items[i].id
    }

    /// Whether the element at position `i` shows the drag-over indicator.
    pub fn is_hovered(&self, i: usize) -> (h: bool)
        requires
            i < self.elems().len(),
        ensures
            h == self.hovers()[i as int],
    {
        self.items[i].hover
    }

    /// The current visual order, as item ids.
    pub fn order(&self) -> (o: Vec<i64>)
        ensures
            o@ == self.ids(),
    {
        let mut o: Vec<i64> = Vec::new();
        let mut i: usize = 0;
        while i < self.items.len()
            invariant
                i <= self.items.len(),
                o@.len() == i as int,
                forall|j: int| 0 <= j < i as int ==> o@[j] == self.items@[j].id,
            decreases self.items.len() - i,
        {
            o.push(self.items[i].id);
            i = i + 1;
        }
        proof {
            assert(o@ =~= self.ids());
        }
        o
    }

    /// Handles a drop: clears the drop target's hover indicator, resolves
    /// the dragged key from the channel, looks the element up among this
    /// container's children, and relocates it immediately before the drop
    /// target (or to the end, for a drop on the container).
    ///
    /// The indicator on the drop target is cleared whether or not the
    /// relocation succeeds. A drop with no active session is a no-op, not
    /// an error; a malformed key or a key matching no current element
    /// leaves the order untouched and reports why. No failure is fatal:
    /// the list stays interactive.
    pub fn handle_drop(&mut self, channel: &TransferChannel, target: DropTarget) -> (r: Result<
        DropOutcome,
        DragError,
    >)
        requires
            old(self).wf(),
            target matches DropTarget::Element(j) ==> j < old(self).elems().len(),
        ensures
            final(self).wf(),
            match channel@ {
                Option::None => r == Ok::<DropOutcome, DragError>(DropOutcome::NoSession)
                    && final(self).elems() == cleared_target(old(self).elems(), target),
                Option::Some(key) => {
                    &&& ((forall|id: i64| key != key_chars(id as int)) ==> r == Err::<
                        DropOutcome,
                        DragError,
                    >(DragError::MalformedKey) && final(self).elems() == cleared_target(
                        old(self).elems(),
                        target,
                    ))
                    &&& (forall|id: i64|
                        key == key_chars(id as int) ==> if old(self).ids().contains(id) {
                            r == Ok::<DropOutcome, DragError>(DropOutcome::Moved)
                                && final(self).elems() == drop_result(old(self).elems(), id, target)
                        } else {
                            r == Err::<DropOutcome, DragError>(DragError::DraggedElementNotFound)
                                && final(self).elems() == cleared_target(old(self).elems(), target)
                        })
                },
            },
    {
        let ghost s0 = self.items@;
        // the drop always clears its target's indicator, success or not
        match target {
            DropTarget::Element(j) => self.drag_leave(j),
            DropTarget::Container => {},
        }
        let ghost sc = self.items@;
        proof {
            assert(sc == cleared_target(s0, target));
            assert(ids_of(sc) =~= ids_of(s0));
        }
        let key = match resolve_dragged_key(channel) {
            Err(_) => {
                return Ok(DropOutcome::NoSession);
            },
            Ok(k) => k,
        };
        let id = match id_of(key.as_str()) {
            Err(e) => {
                return Err(e);
            },
            Ok(v) => v,
        };
        proof {
            assert forall|id2: i64| key@ == key_chars(id2 as int) implies id2 == id by {
                lemma_key_chars_injective(id as int, id2 as int);
            }
        }
        let from = match find_index(&self.items, id) {
            None => {
                proof {
                    assert(!ids_of(s0).contains(id)) by {
                        if ids_of(s0).contains(id) {
                            let w = choose|w: int|
                                0 <= w < ids_of(s0).len() && ids_of(s0)[w] == id;
                            assert(ids_of(sc)[w] == id);
                            assert(self.items@[w].id == id);
                        }
                    }
                }
                return Err(DragError::DraggedElementNotFound);
            },
            Some(i) => i,
        };
        proof {
            assert(self.ids()[from as int] == id);
            assert(ids_of(s0)[from as int] == id);
            assert(ids_of(s0).contains(id));
            let io = ids_of(s0).index_of(id);
            assert(0 <= io < s0.len() && ids_of(s0)[io] == id);
            assert(io == from as int);
        }
        match target {
            DropTarget::Element(j) => {
                let ghost s1 = self.items@;
                let moved = self.items.remove(from);
                let dest: usize = if from < j {
                    j - 1
                } else {
                    j
                };
                self.items.insert(dest, moved);
                proof {
                    assert(moved == s1[from as int]);
                    assert(self.items@ == s1.remove(from as int).insert(
                        dest as int,
                        s1[from as int],
                    ));
                    assert(self.items@ == drop_result(s0, id, target));
                    assert(ids_of(s1) =~= ids_of(s0));
                    lemma_relocate_no_dup(s1, from as int, dest as int);
                }
            },
            DropTarget::Container => {
                let moved = self.items.remove(from);
                self.items.push(moved);
                proof {
                    assert(self.items@ == s0.remove(from as int).push(s0[from as int]));
                    assert(self.items@ == drop_result(s0, id, target));
                    let dest = s0.len() as int - 1;
                    assert(s0.remove(from as int).push(s0[from as int]) =~= s0.remove(
                        from as int,
                    ).insert(dest, s0[from as int]));
                    lemma_relocate_no_dup(s0, from as int, dest);
                }
            },
        }
        Ok(DropOutcome::Moved)
    }
}

/// Law: relocating the element at `from` before the element at `to` puts
/// it immediately before that element, and every other element keeps its
/// relative order -- removing the moved element from the result gives
/// exactly the original sequence without it.
pub proof fn lemma_move_before_order<A>(s: Seq<A>, from: int, to: int)
    requires
        0 <= from < s.len(),
        0 <= to < s.len(),
        from != to,
    ensures
        ({
            let p = if from < to {
                to - 1
            } else {
                to
            };
            &&& move_before(s, from, to).len() == s.len()
            &&& move_before(s, from, to)[p] == s[from]
            &&& move_before(s, from, to)[p + 1] == s[to]
            &&& move_before(s, from, to).remove(p) == s.remove(from)
        }),
{
    let p = if from < to {
        to - 1
    } else {
        to
    };
    let u = s.remove(from);
    let t = u.insert(p, s[from]);
    assert(t[p] == s[from]);
    assert(t[p + 1] == u[p]);
    if from < to {
        assert(u[to - 1] == s[to]);
    } else {
        assert(u[to] == s[to]);
    }
    assert(t.remove(p) =~= u);
}

/// Law: dropping an element onto itself is a relocation that changes
/// nothing -- detaching and re-inserting before itself restores the
/// original sequence.
pub proof fn lemma_move_before_self<A>(s: Seq<A>, i: int)
    requires
        0 <= i < s.len(),
    ensures
        move_before(s, i, i) == s,
{
    assert(move_before(s, i, i) =~= s);
}

/// Law: a successful drop of the element carrying `id` onto the element
/// at position `j` reorders exactly by relocating that element to sit
/// immediately before position `j`: the resulting ids are the original
/// ids so moved, and the hover clearing changes no id.
pub proof fn lemma_drop_result_order(s: Seq<Rendered>, id: i64, j: usize)
    requires
        (j as int) < s.len(),
        ids_of(s).no_duplicates(),
        ids_of(s).contains(id),
    ensures
        ids_of(drop_result(s, id, DropTarget::Element(j))) == move_before(
            ids_of(s),
            ids_of(s).index_of(id),
            j as int,
        ),
{
    let from = ids_of(s).index_of(id);
    assert(0 <= from < s.len() && ids_of(s)[from] == id);
    let s2 = s.update(j as int, with_hover(s[j as int], false));
    assert(ids_of(s2) =~= ids_of(s));
    let dest = if from < j as int {
        j as int - 1
    } else {
        j as int
    };
    let t = drop_result(s, id, DropTarget::Element(j));
    let m = move_before(ids_of(s), from, j as int);
    lemma_relocate_indexes(s2, from, dest);
    lemma_relocate_indexes(ids_of(s), from, dest);
    assert forall|p: int| 0 <= p < s.len() implies ids_of(t)[p] == m[p] by {
        let q = reloc_src(from, dest, p);
        assert(t[p] == s2[q]);
        assert(m[p] == ids_of(s)[q]);
        assert(ids_of(t)[p] == t[p].id);
        assert(ids_of(s2)[q] == s2[q].id);
    }
    assert(ids_of(t) =~= m);
}

/// Law: a drop of an element onto its own rendered element leaves the
/// visual order unchanged; only the target's hover indicator is cleared.
pub proof fn lemma_drop_on_self(s: Seq<Rendered>, j: usize)
    requires
        (j as int) < s.len(),
        ids_of(s).no_duplicates(),
    ensures
        ids_of(drop_result(s, s[j as int].id, DropTarget::Element(j))) == ids_of(s),
{
    let id = s[j as int].id;
    let from = ids_of(s).index_of(id);
    assert(ids_of(s)[j as int] == id);
    assert(0 <= from < s.len() && ids_of(s)[from] == id);
    assert(from == j as int);
    let s2 = s.update(j as int, with_hover(s[j as int], false));
    lemma_move_before_self(s2, j as int);
    assert(ids_of(s2) =~= ids_of(s));
}

/// Law: if the drop target was the only element showing the drag-over
/// indicator, then after the drop no element shows it at all.
pub proof fn lemma_drop_clears_hover(s: Seq<Rendered>, id: i64, j: usize)
    requires
        (j as int) < s.len(),
        ids_of(s).contains(id),
        forall|p: int| 0 <= p < s.len() && #[trigger] s[p].hover ==> p == j as int,
    ensures
        forall|p: int|
            0 <= p < drop_result(s, id, DropTarget::Element(j)).len() ==> !(#[trigger] drop_result(
                s,
                id,
                DropTarget::Element(j),
            )[p].hover),
{
    let from = ids_of(s).index_of(id);
    assert(0 <= from < s.len() && ids_of(s)[from] == id);
    let s2 = s.update(j as int, with_hover(s[j as int], false));
    assert(forall|p: int| 0 <= p < s2.len() ==> !(#[trigger] s2[p].hover));
    let dest = if from < j as int {
        j as int - 1
    } else {
        j as int
    };
    lemma_relocate_indexes(s2, from, dest);
    let t = drop_result(s, id, DropTarget::Element(j));
    assert(t == s2.remove(from).insert(dest, s2[from]));
    assert forall|p: int| 0 <= p < t.len() implies !(#[trigger] t[p].hover) by {
        assert(t[p] == s2[reloc_src(from, dest, p)]);
    }
}

/// Law: a drop on an element clears that element's indicator even when
/// the relocation fails, so if the target was the only element showing
/// it, no element shows it after the failed drop either.
pub proof fn lemma_failed_drop_clears_hover(s: Seq<Rendered>, j: usize)
    requires
        (j as int) < s.len(),
        forall|p: int| 0 <= p < s.len() && #[trigger] s[p].hover ==> p == j as int,
    ensures
        forall|p: int|
            0 <= p < s.len() ==> !(#[trigger] cleared_target(s, DropTarget::Element(j))[p].hover),
{
}

/// Law: a drop on the container itself touches no hover indicator, so if
/// no element showed one before, none shows one after.
pub proof fn lemma_container_drop_keeps_clear(s: Seq<Rendered>, id: i64)
    requires
        ids_of(s).contains(id),
        forall|p: int| 0 <= p < s.len() ==> !(#[trigger] s[p].hover),
    ensures
        forall|p: int|
            0 <= p < drop_result(s, id, DropTarget::Container).len() ==> !(#[trigger] drop_result(
                s,
                id,
                DropTarget::Container,
            )[p].hover),
{
    let from = ids_of(s).index_of(id);
    assert(0 <= from < s.len() && ids_of(s)[from] == id);
    let dest = s.len() as int - 1;
    assert(s.remove(from).push(s[from]) =~= s.remove(from).insert(dest, s[from]));
    lemma_relocate_indexes(s, from, dest);
    let t = drop_result(s, id, DropTarget::Container);
    assert forall|p: int| 0 <= p < t.len() implies !(#[trigger] t[p].hover) by {
        assert(t[p] == s[reloc_src(from, dest, p)]);
    }
}

} // verus!
