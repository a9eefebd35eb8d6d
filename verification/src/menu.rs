//! The collection of top-level menu items, indexed by id.
//!
//! The items live in a `dashmap::DashMap<String, MenuItem>`. Its contents are
//! named by [`menu_entries`]; the few calls made into the map are wrappers
//! whose contracts describe their effect on those contents. The map's
//! iteration order is not specified: wherever an operation walks the items,
//! its contract holds for whichever order the walk took.

use vstd::prelude::*;
use vstd::string::*;
use dashmap::DashMap;
use crate::item::{MenuItem, ItemView, opt_view, find_view, same_id, contains_id, replace_view, items_view, lemma_items_view};
use crate::error::AddMenuItemError;

verus! {

#[verifier::external_type_specification]
#[verifier::external_body]
#[verifier::reject_recursive_types(K)]
#[verifier::reject_recursive_types(V)]
#[verifier::reject_recursive_types(S)]
pub struct ExDashMap<K, V, S>(DashMap<K, V, S>);

/// The map type holding menu items by id.
pub type ItemMap = DashMap<String, MenuItem>;

/// The entries of a map of menu items: each key's text mapped to the value of its item.
pub uninterp spec fn menu_entries(m: ItemMap) -> Map<Seq<char>, ItemView>;

/// The contents of an empty menu.
pub open spec fn no_entries() -> Map<Seq<char>, ItemView> {
    Map::empty()
}

/// `DashMap::new`: the new map has no entries.
#[verifier::external_body]
fn map_new() -> (fresh: ItemMap)
    ensures
        menu_entries(fresh) == no_entries(),
{
    DashMap::new()
}

/// `DashMap::insert`: afterwards `key` maps to `value`; the value it replaced,
/// if any, is handed back.
#[verifier::external_body]
fn map_insert(m: &mut ItemMap, key: String, value: MenuItem) -> (prev: Option<MenuItem>)
    ensures
        menu_entries(*final(m)) == menu_entries(*old(m)).insert(key@, value@),
        opt_view(prev) == (if menu_entries(*old(m)).contains_key(key@) {
            Some(menu_entries(*old(m))[key@])
        } else {
            None
        }),
{
    m.insert(key, value)
}

/// `DashMap::remove`: afterwards `key` has no entry; the removed value, if any,
/// is handed back.
#[verifier::external_body]
fn map_remove(m: &mut ItemMap, key: &str) -> (prev: Option<MenuItem>)
    ensures
        menu_entries(*final(m)) == menu_entries(*old(m)).remove(key@),
        opt_view(prev) == (if menu_entries(*old(m)).contains_key(key@) {
            Some(menu_entries(*old(m))[key@])
        } else {
            None
        }),
{
    m.remove(key).map(|entry| entry.1)
}

/// `DashMap::get`, handing out a copy of the value stored under `key`.
#[verifier::external_body]
fn map_get(m: &ItemMap, key: &str) -> (r: Option<MenuItem>)
    ensures
        opt_view(r) == (if menu_entries(*m).contains_key(key@) {
            Some(menu_entries(*m)[key@])
        } else {
            None
        }),
{
    m.get(key).map(|entry| entry.value().copy())
}

/// `DashMap::len`: the number of entries.
#[verifier::external_body]
fn map_len(m: &ItemMap) -> (n: usize)
    ensures
        n == menu_entries(*m).len(),
{
    m.len()
}

/// `DashMap::clear`: afterwards there are no entries.
#[verifier::external_body]
fn map_clear(map: &mut ItemMap)
    ensures
        menu_entries(*final(map)) == no_entries(),
{
    map.clear()
}

/// `DashMap::iter`, handing out a copy of each entry: every entry exactly
/// once, in the map's own (unspecified) order.
#[verifier::external_body]
fn map_entries(m: &ItemMap) -> (r: Vec<(String, MenuItem)>)
    ensures
        r@.len() == menu_entries(*m).len(),
        forall|i: int|
            0 <= i < r@.len() ==> menu_entries(*m).contains_key(#[trigger] r@[i].0@) && menu_entries(
                *m,
            )[r@[i].0@] == r@[i].1@,
        forall|i: int, j: int| 0 <= i < j < r@.len() ==> r@[i].0@ != r@[j].0@,
        menu_entries(*m).dom() == r@.map_values(|e: (String, MenuItem)| e.0@).to_set(),
        forall|k: Seq<char>|
            menu_entries(*m).contains_key(k) ==> exists|i: int| 0 <= i < r@.len() && #[trigger] r@[i].0@ == k,
{
    m.iter().map(|entry| (entry.key().clone(), entry.value().copy())).collect()
}

/// A collection of menu items indexed by their id.
pub struct Menu {
    items: ItemMap,
}

impl View for Menu {
    type V = Map<Seq<char>, ItemView>;

    closed spec fn view(&self) -> Map<Seq<char>, ItemView> {
        menu_entries(self.items)
    }
}

/// The entries a walk over the menu hands out: each key once, with its item.
pub open spec fn is_walk(m: Map<Seq<char>, ItemView>, es: Seq<(String, MenuItem)>) -> bool {
    &&& m.dom().finite()
    &&& es.len() == m.len()
    &&& forall|i: int| 0 <= i < es.len() ==> m.contains_key(#[trigger] es[i].0@) && m[es[i].0@] == es[i].1@
    &&& forall|i: int, j: int| 0 <= i < j < es.len() ==> es[i].0@ != es[j].0@
    &&& forall|k: Seq<char>| m.contains_key(k) ==> exists|i: int| 0 <= i < es.len() && #[trigger] es[i].0@ == k
}

impl Menu {
    /// Creates a new empty menu.
    pub fn new() -> (m: Menu)
        ensures
            m@ == no_entries(),
    {
        Menu { items: map_new() }
    }

    /// Stores `item` under `key`, returning the item it replaced.
    pub fn insert(&mut self, key: String, item: MenuItem) -> (prev: Option<MenuItem>)
        ensures
            final(self)@ == old(self)@.insert(key@, item@),
            opt_view(prev) == (if old(self)@.contains_key(key@) {
                Some(old(self)@[key@])
            } else {
                None
            }),
    {
        map_insert(&mut self.items, key, item)
    }

    /// Removes the item stored under `key`, returning it.
    pub fn remove(&mut self, key: &str) -> (prev: Option<MenuItem>)
        ensures
            final(self)@ == old(self)@.remove(key@),
            opt_view(prev) == (if old(self)@.contains_key(key@) {
                Some(old(self)@[key@])
            } else {
                None
            }),
    {
        map_remove(&mut self.items, key)
    }

    /// A copy of the item stored under `key`.
    pub fn get(&self, key: &str) -> (r: Option<MenuItem>)
        ensures
            opt_view(r) == (if self@.contains_key(key@) {
                Some(self@[key@])
            } else {
                None
            }),
    {
        map_get(&self.items, key)
    }

    /// The number of items.
    pub fn len(&self) -> (n: usize)
        ensures
            n == self@.len(),
    {
        map_len(&self.items)
    }

    /// Whether the menu holds no item.
    pub fn is_empty(&self) -> (b: bool)
        ensures
            b == (self@.len() == 0),
    {
        map_len(&self.items) == 0
    }

    /// Removes every item.
    pub fn clear(&mut self)
        ensures
            final(self)@ == no_entries(),
    {
        map_clear(&mut self.items)
    }

    /// Every entry exactly once, in the collection's own order.
    pub fn entries(&self) -> (r: Vec<(String, MenuItem)>)
        ensures
            is_walk(self@, r@),
    {
        let r = map_entries(&self.items);
        proof {
            broadcast use vstd::seq_lib::seq_to_set_is_finite;
            assert(self@.dom().finite());
        }
        r
    }
}

/// What a read gives back of a write: after storing `item` under `key` a read
/// of `key` gives `item` and reads of other keys are unchanged; after removing
/// `key` a read of it gives nothing.
pub proof fn lemma_read_after_write(m: Map<Seq<char>, ItemView>, key: Seq<char>, item: ItemView, other: Seq<char>)
    requires
        other != key,
    ensures
        m.insert(key, item).contains_key(key) && m.insert(key, item)[key] == item,
        m.insert(key, item).contains_key(other) == m.contains_key(other),
        m.contains_key(other) ==> m.insert(key, item)[other] == m[other],
        !m.remove(key).contains_key(key),
        m.remove(key).contains_key(other) == m.contains_key(other),
{
}

/// Removing an id that was just added undoes the addition when the id was new.
pub proof fn lemma_remove_undoes_insert(m: Map<Seq<char>, ItemView>, key: Seq<char>, item: ItemView)
    requires
        !m.contains_key(key),
    ensures
        m.insert(key, item).remove(key) == m,
{
    assert(m.insert(key, item).remove(key) =~= m);
}

/// The map a sequence of items builds when each is stored under its id in turn.
pub open spec fn map_of_items(s: Seq<ItemView>) -> Map<Seq<char>, ItemView>
    decreases s.len(),
{
    if s.len() == 0 {
        no_entries()
    } else {
        map_of_items(s.drop_last()).insert(s.last().id, s.last())
    }
}

/// Builder for constructing a `Menu` by adding items one at a time.
pub struct MenuBuilder {
    menu: Menu,
}

impl View for MenuBuilder {
    type V = Map<Seq<char>, ItemView>;

    closed spec fn view(&self) -> Map<Seq<char>, ItemView> {
        self.menu@
    }
}

impl MenuBuilder {
    /// Adds a menu item, stored under its id.
    pub fn item(self, item: MenuItem) -> (b: MenuBuilder)
        ensures
            b@ == self@.insert(item@.id, item@),
    {
        let mut menu = self.menu;
        let key = item.id.clone();
        menu.insert(key, item);
        MenuBuilder { menu }
    }

    /// Builds the final `Menu`.
    pub fn build(self) -> (m: Menu)
        ensures
            m@ == self@,
    {
        self.menu
    }
}

/// Whether the ring radius with these bits is zero (`0.0` or `-0.0`).
pub open spec fn is_zero_radius(bits: u32) -> bool {
    bits == 0 || bits == 0x8000_0000
}

/// The overlap test handed in reported that items `a` and `b` overlap on a
/// ring whose radius has the bits `ring`.
pub open spec fn reports_overlap<O: Fn(&MenuItem, &MenuItem, u32) -> bool>(overlaps: O, a: ItemView, b: ItemView, ring: u32) -> bool {
    exists|x: MenuItem, y: MenuItem| x@ == a && y@ == b && #[trigger] call_ensures(overlaps, (&x, &y, ring), true)
}

/// The overlap test handed in reported that items `a` and `b` do not overlap
/// on a ring whose radius has the bits `ring`.
pub open spec fn reports_clear<O: Fn(&MenuItem, &MenuItem, u32) -> bool>(overlaps: O, a: ItemView, b: ItemView, ring: u32) -> bool {
    exists|x: MenuItem, y: MenuItem| x@ == a && y@ == b && #[trigger] call_ensures(overlaps, (&x, &y, ring), false)
}

/// `v` with its angle set to `bits`.
pub open spec fn set_angle(v: ItemView, bits: u32) -> ItemView {
    ItemView { angle_bits: bits, ..v }
}

/// `m` with the angle of the item under `key` (if any) set to `bits`.
pub open spec fn with_angle(m: Map<Seq<char>, ItemView>, key: Seq<char>, bits: u32) -> Map<Seq<char>, ItemView> {
    if m.contains_key(key) {
        m.insert(key, set_angle(m[key], bits))
    } else {
        m
    }
}

/// `m` after setting the angles in `assignments`, in order.
pub open spec fn with_angles(m: Map<Seq<char>, ItemView>, assignments: Seq<(Seq<char>, u32)>) -> Map<Seq<char>, ItemView>
    decreases assignments.len(),
{
    if assignments.len() == 0 {
        m
    } else {
        with_angle(with_angles(m, assignments.drop_last()), assignments.last().0, assignments.last().1)
    }
}

/// The assignments of `asg` that do not name a fixed-position item of `m`, in
/// order (an assignment to an id without an item is kept; it changes nothing).
pub open spec fn flexible_assignments(m: Map<Seq<char>, ItemView>, asg: Seq<(Seq<char>, u32)>) -> Seq<(Seq<char>, u32)>
    decreases asg.len(),
{
    if asg.len() == 0 {
        Seq::empty()
    } else {
        let rest = flexible_assignments(m, asg.drop_last());
        if m.contains_key(asg.last().0) && m[asg.last().0].fixed_position {
            rest
        } else {
            rest.push(asg.last())
        }
    }
}

/// `t` is `m` laid out by one answer of `plan`: the plan was handed every item
/// of `m` once and its angle assignments were applied, in order, to the
/// flexible items.
pub open spec fn plan_layout<P: Fn(&Vec<MenuItem>) -> Vec<(String, u32)>>(
    m: Map<Seq<char>, ItemView>,
    plan: P,
    t: Map<Seq<char>, ItemView>,
) -> bool {
    exists|v: Vec<MenuItem>, a: Vec<(String, u32)>|
        is_item_walk(m, v@) && #[trigger] call_ensures(plan, (&v,), a) && t == with_angles(
            m,
            flexible_assignments(m, assignment_views(a@)),
        )
}

/// `a` and `b` hold the same fixed-position items, unchanged.
pub open spec fn keeps_fixed(a: Map<Seq<char>, ItemView>, b: Map<Seq<char>, ItemView>) -> bool {
    forall|k: Seq<char>| #[trigger] a.contains_key(k) && a[k].fixed_position ==> b.contains_key(k) && b[k] == a[k]
}

/// Applying only the assignments to flexible items leaves every
/// fixed-position item as it was.
pub proof fn lemma_flexible_keeps_fixed(m: Map<Seq<char>, ItemView>, asg: Seq<(Seq<char>, u32)>)
    ensures
        keeps_fixed(m, with_angles(m, flexible_assignments(m, asg))),
    decreases asg.len(),
{
    if asg.len() > 0 {
        lemma_flexible_keeps_fixed(m, asg.drop_last());
        let rest = flexible_assignments(m, asg.drop_last());
        let last = asg.last();
        if !(m.contains_key(last.0) && m[last.0].fixed_position) {
            assert(rest.push(last).drop_last() =~= rest);
            lemma_with_angles_same_but_angles(m, rest);
        }
    }
}

/// Redistribution keeps fixed items where they are: a layout by any plan
/// changes nothing but angles, and no fixed-position item at all.
pub proof fn lemma_plan_layout_keeps_fixed<P: Fn(&Vec<MenuItem>) -> Vec<(String, u32)>>(
    m: Map<Seq<char>, ItemView>,
    plan: P,
    t: Map<Seq<char>, ItemView>,
)
    requires
        plan_layout(m, plan, t),
    ensures
        same_but_angles(m, t),
        keeps_fixed(m, t),
{
    let (v, a) = choose|v: Vec<MenuItem>, a: Vec<(String, u32)>|
        is_item_walk(m, v@) && #[trigger] call_ensures(plan, (&v,), a) && t == with_angles(
            m,
            flexible_assignments(m, assignment_views(a@)),
        );
    lemma_with_angles_same_but_angles(m, flexible_assignments(m, assignment_views(a@)));
    lemma_flexible_keeps_fixed(m, assignment_views(a@));
}

/// The texts and angles of a list of angle assignments.
pub open spec fn assignment_views(a: Seq<(String, u32)>) -> Seq<(Seq<char>, u32)> {
    a.map_values(|e: (String, u32)| (e.0@, e.1))
}

/// `a` and `b` hold the same keys, and their items differ at most in their angles.
pub open spec fn same_but_angles(a: Map<Seq<char>, ItemView>, b: Map<Seq<char>, ItemView>) -> bool {
    &&& a.dom() == b.dom()
    &&& forall|k: Seq<char>| #[trigger] a.contains_key(k) ==> b[k] == set_angle(a[k], b[k].angle_bits)
}

/// Setting angles keeps the keys and every other attribute of the items.
pub proof fn lemma_with_angles_same_but_angles(m: Map<Seq<char>, ItemView>, assignments: Seq<(Seq<char>, u32)>)
    ensures
        same_but_angles(m, with_angles(m, assignments)),
    decreases assignments.len(),
{
    if assignments.len() > 0 {
        lemma_with_angles_same_but_angles(m, assignments.drop_last());
        let m1 = with_angles(m, assignments.drop_last());
        let m2 = with_angles(m, assignments);
        assert(m2.dom() =~= m1.dom());
    }
}

/// Setting angles for distinct keys: each listed key gets its angle, the others keep theirs.
pub proof fn lemma_with_angles_distinct(m: Map<Seq<char>, ItemView>, asg: Seq<(Seq<char>, u32)>, k: Seq<char>)
    requires
        forall|i: int, j: int| 0 <= i < j < asg.len() ==> asg[i].0 != asg[j].0,
        m.contains_key(k),
    ensures
        with_angles(m, asg).contains_key(k),
        forall|i: int| 0 <= i < asg.len() && #[trigger] asg[i].0 == k ==> with_angles(m, asg)[k] == set_angle(m[k], asg[i].1),
        (forall|i: int| 0 <= i < asg.len() ==> asg[i].0 != k) ==> with_angles(m, asg)[k] == m[k],
    decreases asg.len(),
{
    if asg.len() > 0 {
        let rest = asg.drop_last();
        lemma_with_angles_distinct(m, rest, k);
        lemma_with_angles_same_but_angles(m, rest);
        if asg.last().0 == k {
            assert forall|i: int| 0 <= i < rest.len() implies rest[i].0 != k by {
                assert(asg[i].0 != asg[asg.len() - 1].0);
            }
            assert forall|i: int| 0 <= i < asg.len() && #[trigger] asg[i].0 == k implies with_angles(m, asg)[k] == set_angle(m[k], asg[i].1) by {
                if i < asg.len() - 1 {
                    assert(asg[i].0 != asg[asg.len() - 1].0);
                }
            }
        } else {
            assert forall|i: int| 0 <= i < asg.len() && #[trigger] asg[i].0 == k implies with_angles(m, asg)[k] == set_angle(m[k], asg[i].1) by {
                assert(rest[i].0 == k);
            }
        }
    }
}

/// Redistribution moves every flexible item the plan names, whatever its
/// other attributes (enabled or not): when the plan names distinct ids, an
/// item that is not fixed in place ends at the angle the plan gives it, and
/// an item the plan does not name keeps its angle.
pub proof fn lemma_flexible_items_take_planned_angles(
    m: Map<Seq<char>, ItemView>,
    asg: Seq<(Seq<char>, u32)>,
    k: Seq<char>,
)
    requires
        forall|i: int, j: int| 0 <= i < j < asg.len() ==> asg[i].0 != asg[j].0,
        m.contains_key(k),
        !m[k].fixed_position,
    ensures
        with_angles(m, flexible_assignments(m, asg)).contains_key(k),
        forall|i: int|
            0 <= i < asg.len() && #[trigger] asg[i].0 == k ==> with_angles(m, flexible_assignments(m, asg))[k]
                == set_angle(m[k], asg[i].1),
        (forall|i: int| 0 <= i < asg.len() ==> asg[i].0 != k) ==> with_angles(m, flexible_assignments(m, asg))[k]
            == m[k],
    decreases asg.len(),
{
    lemma_with_angles_same_but_angles(m, flexible_assignments(m, asg));
    if asg.len() > 0 {
        let rest = asg.drop_last();
        let last = asg.last();
        lemma_flexible_items_take_planned_angles(m, rest, k);
        let fr = flexible_assignments(m, rest);
        lemma_with_angles_same_but_angles(m, fr);
        if !(m.contains_key(last.0) && m[last.0].fixed_position) {
            assert(fr.push(last).drop_last() =~= fr);
            assert(fr.push(last).last() == last);
        }
        if last.0 == k {
            assert forall|i: int| 0 <= i < rest.len() implies rest[i].0 != k by {
                assert(asg[i].0 != asg[asg.len() - 1].0);
            }
            assert forall|i: int|
                0 <= i < asg.len() && #[trigger] asg[i].0 == k implies with_angles(m, flexible_assignments(m, asg))[k]
                    == set_angle(m[k], asg[i].1) by {
                if i < asg.len() - 1 {
                    assert(asg[i].0 != asg[asg.len() - 1].0);
                }
            }
        } else {
            assert forall|i: int|
                0 <= i < asg.len() && #[trigger] asg[i].0 == k implies with_angles(m, flexible_assignments(m, asg))[k]
                    == set_angle(m[k], asg[i].1) by {
                assert(rest[i].0 == k);
            }
            if forall|i: int| 0 <= i < asg.len() ==> asg[i].0 != k {
                assert(forall|i: int| 0 <= i < rest.len() ==> rest[i].0 == asg[i].0);
            }
        }
    }
}

/// The same at the level of a layout by a plan: some answer of the plan to a
/// walk over every item was applied, and when that answer names distinct ids,
/// every flexible item it names has the angle it was given.
pub proof fn lemma_plan_layout_moves_flexible_items<P: Fn(&Vec<MenuItem>) -> Vec<(String, u32)>>(
    m: Map<Seq<char>, ItemView>,
    plan: P,
    t: Map<Seq<char>, ItemView>,
)
    requires
        plan_layout(m, plan, t),
    ensures
        exists|v: Vec<MenuItem>, a: Vec<(String, u32)>|
            is_item_walk(m, v@) && #[trigger] call_ensures(plan, (&v,), a) && ((forall|i: int, j: int|
                0 <= i < j < a@.len() ==> a@[i].0@ != a@[j].0@) ==> forall|i: int|
                0 <= i < a@.len() && m.contains_key(#[trigger] a@[i].0@) && !m[a@[i].0@].fixed_position ==> t[a@[i].0@]
                    == set_angle(m[a@[i].0@], a@[i].1)),
{
    let (v, a) = choose|v: Vec<MenuItem>, a: Vec<(String, u32)>|
        is_item_walk(m, v@) && #[trigger] call_ensures(plan, (&v,), a) && t == with_angles(
            m,
            flexible_assignments(m, assignment_views(a@)),
        );
    let av = assignment_views(a@);
    if forall|i: int, j: int| 0 <= i < j < a@.len() ==> a@[i].0@ != a@[j].0@ {
        assert forall|i: int|
            0 <= i < a@.len() && m.contains_key(#[trigger] a@[i].0@) && !m[a@[i].0@].fixed_position implies t[a@[i].0@]
                == set_angle(m[a@[i].0@], a@[i].1) by {
            let k = a@[i].0@;
            assert forall|x: int, y: int| 0 <= x < y < av.len() implies av[x].0 != av[y].0 by {
                assert(av[x].0 == a@[x].0@ && av[y].0 == a@[y].0@);
            }
            lemma_flexible_items_take_planned_angles(m, av, k);
            assert(av[i] == (a@[i].0@, a@[i].1));
        }
    }
}

/// `items` are (copies of) the items of the walk `es`, in order.
pub open spec fn lists_items(es: Seq<(String, MenuItem)>, items: Seq<MenuItem>) -> bool {
    &&& items.len() == es.len()
    &&& forall|i: int| 0 <= i < es.len() ==> #[trigger] items[i]@ == es[i].1@
}

/// `items` are copies of every item of `m`, each once, in some order.
pub open spec fn is_item_walk(m: Map<Seq<char>, ItemView>, items: Seq<MenuItem>) -> bool {
    exists|es: Seq<(String, MenuItem)>| is_walk(m, es) && #[trigger] lists_items(es, items)
}

/// `e` reports an overlap of `new` with an item of `m` that has another id,
/// as the overlap test handed in found it.
pub open spec fn is_overlap_error<O: Fn(&MenuItem, &MenuItem, u32) -> bool>(
    m: Map<Seq<char>, ItemView>,
    overlaps: O,
    new: ItemView,
    ring: u32,
    e: AddMenuItemError,
) -> bool {
    match e {
        AddMenuItemError::ItemOverlap { id, overlapping_with } => {
            &&& id@ == new.id
            &&& exists|k: Seq<char>|
                #![trigger m[k]]
                m.contains_key(k) && m[k].id == overlapping_with@ && m[k].id != new.id && reports_overlap(
                    overlaps,
                    new,
                    m[k],
                    ring,
                )
        },
        AddMenuItemError::MenuWidgetNotAvailable => false,
    }
}

/// `e` reports an overlap between two items of `t`, as the overlap test handed in found it.
pub open spec fn layout_overlap<O: Fn(&MenuItem, &MenuItem, u32) -> bool>(
    t: Map<Seq<char>, ItemView>,
    overlaps: O,
    ring: u32,
    e: AddMenuItemError,
) -> bool {
    exists|k: Seq<char>| #[trigger] t.contains_key(k) && is_overlap_error(t, overlaps, t[k], ring, e)
}

/// The overlap test handed in reported every item of `m` with another id clear of `new`.
pub open spec fn all_clear_of<O: Fn(&MenuItem, &MenuItem, u32) -> bool>(m: Map<Seq<char>, ItemView>, overlaps: O, new: ItemView, ring: u32) -> bool {
    forall|k: Seq<char>| #[trigger] m.contains_key(k) && m[k].id != new.id ==> reports_clear(overlaps, new, m[k], ring)
}

impl Menu {
    /// Checks whether `new_item` overlaps with any item of another id on the ring,
    /// asking `overlaps` about each such item in turn (in the collection's order)
    /// and reporting the first overlap. Returns `Ok(())` if the ring radius is zero
    /// (e.g. during initialization).
    pub fn validate_no_overlap<O: Fn(&MenuItem, &MenuItem, u32) -> bool>(
        &self,
        new_item: &MenuItem,
        ring_radius_bits: u32,
        overlaps: &O,
    ) -> (r: Result<(), AddMenuItemError>)
        requires
            forall|a: &MenuItem, b: &MenuItem, r: u32| call_requires(*overlaps, (a, b, r)),
        ensures
            is_zero_radius(ring_radius_bits) ==> r is Ok,
            r is Ok && !is_zero_radius(ring_radius_bits) ==> all_clear_of(self@, *overlaps, new_item@, ring_radius_bits),
            r matches Err(e) ==> !is_zero_radius(ring_radius_bits) && is_overlap_error(
                self@,
                *overlaps,
                new_item@,
                ring_radius_bits,
                e,
            ),
    {
        if ring_radius_bits == 0 || ring_radius_bits == 0x8000_0000 {
            return Ok(());
        }
        let es = self.entries();
        let mut i: usize = 0;
        while i < es.len()
            invariant
                i <= es@.len(),
                is_walk(self@, es@),
                forall|a: &MenuItem, b: &MenuItem, r: u32| call_requires(*overlaps, (a, b, r)),
                !is_zero_radius(ring_radius_bits),
                forall|j: int|
                    0 <= j < i ==> (#[trigger] es@[j].1).id@ == new_item.id@ || call_ensures(
                        *overlaps,
                        (new_item, &es@[j].1, ring_radius_bits),
                        false,
                    ),
            decreases es@.len() - i,
        {
            let existing = &es[i].1;
            if !same_id(&existing.id, new_item.id.as_str()) {
                let hit = overlaps(new_item, existing, ring_radius_bits);
                if hit {
                    let e = AddMenuItemError::ItemOverlap {
                        id: new_item.id.clone(),
                        overlapping_with: existing.id.clone(),
                    };
                    proof {
                        let k = es@[i as int].0@;
                        assert(self@[k] == existing@);
                        assert(reports_overlap(*overlaps, new_item@, self@[k], ring_radius_bits));
                    }
                    return Err(e);
                }
            }
            i = i + 1;
        }
        proof {
            assert forall|k: Seq<char>| #[trigger] self@.contains_key(k) && self@[k].id != new_item@.id implies reports_clear(
                *overlaps,
                new_item@,
                self@[k],
                ring_radius_bits,
            ) by {
                let j = choose|j: int| 0 <= j < es@.len() && #[trigger] es@[j].0@ == k;
                assert(self@[k] == es@[j].1@);
                assert(call_ensures(*overlaps, (new_item, &es@[j].1, ring_radius_bits), false));
            }
        }
        Ok(())
    }

    /// Validates that no two items of different ids overlap, checking each item
    /// against all the others in turn and reporting the first overlap found.
    pub fn validate_all_no_overlap<O: Fn(&MenuItem, &MenuItem, u32) -> bool>(&self, ring_radius_bits: u32, overlaps: &O) -> (r:
        Result<(), AddMenuItemError>)
        requires
            forall|a: &MenuItem, b: &MenuItem, r: u32| call_requires(*overlaps, (a, b, r)),
        ensures
            is_zero_radius(ring_radius_bits) ==> r is Ok,
            r is Ok && !is_zero_radius(ring_radius_bits) ==> forall|k: Seq<char>|
                #[trigger] self@.contains_key(k) ==> all_clear_of(self@, *overlaps, self@[k], ring_radius_bits),
            r matches Err(e) ==> !is_zero_radius(ring_radius_bits) && exists|k: Seq<char>|
                #[trigger] self@.contains_key(k) && is_overlap_error(self@, *overlaps, self@[k], ring_radius_bits, e),
    {
        let es = self.entries();
        let mut i: usize = 0;
        while i < es.len()
            invariant
                i <= es@.len(),
                is_walk(self@, es@),
                forall|a: &MenuItem, b: &MenuItem, r: u32| call_requires(*overlaps, (a, b, r)),
                !is_zero_radius(ring_radius_bits) ==> forall|j: int|
                    0 <= j < i ==> all_clear_of(self@, *overlaps, (#[trigger] es@[j].1)@, ring_radius_bits),
            decreases es@.len() - i,
        {
            match self.validate_no_overlap(&es[i].1, ring_radius_bits, overlaps) {
                Ok(()) => {},
                Err(e) => {
                    proof {
                        let k = es@[i as int].0@;
                        assert(self@[k] == es@[i as int].1@);
                    }
                    return Err(e);
                },
            }
            i = i + 1;
        }
        proof {
            if !is_zero_radius(ring_radius_bits) {
                assert forall|k: Seq<char>| #[trigger] self@.contains_key(k) implies all_clear_of(
                    self@,
                    *overlaps,
                    self@[k],
                    ring_radius_bits,
                ) by {
                    let j = choose|j: int| 0 <= j < es@.len() && #[trigger] es@[j].0@ == k;
                    assert(self@[k] == es@[j].1@);
                }
            }
        }
        Ok(())
    }

    /// Every item exactly once, in the collection's own order.
    pub fn items(&self) -> (r: Vec<MenuItem>)
        ensures
            is_item_walk(self@, r@),
    {
        let es = self.entries();
        let mut r: Vec<MenuItem> = Vec::new();
        let mut i: usize = 0;
        while i < es.len()
            invariant
                i <= es@.len(),
                r@.len() == i,
                forall|j: int| 0 <= j < i ==> #[trigger] r@[j]@ == es@[j].1@,
            decreases es@.len() - i,
        {
            r.push(es[i].1.copy());
            i = i + 1;
        }
        proof {
            assert(lists_items(es@, r@));
        }
        r
    }

    /// Re-assigns item angles: `plan` receives every item once (in the
    /// collection's order) and answers with `(id, angle bits)` assignments,
    /// which are applied in order to the flexible items stored under those
    /// ids. Fixed-position items and ids without an item are skipped; nothing
    /// but angles changes.
    pub fn redistribute_angles<P: Fn(&Vec<MenuItem>) -> Vec<(String, u32)>>(&mut self, plan: &P)
        requires
            forall|v: &Vec<MenuItem>| call_requires(*plan, (v,)),
        ensures
            plan_layout(old(self)@, *plan, final(self)@),
            same_but_angles(old(self)@, final(self)@),
            keeps_fixed(old(self)@, final(self)@),
    {
        let items = self.items();
        let assignments = plan(&items);
        let ghost av = assignment_views(assignments@);
        let mut i: usize = 0;
        while i < assignments.len()
            invariant
                i <= assignments@.len(),
                av == assignment_views(assignments@),
                self@ == with_angles(old(self)@, flexible_assignments(old(self)@, av.take(i as int))),
            decreases assignments@.len() - i,
        {
            proof {
                lemma_with_angles_same_but_angles(old(self)@, flexible_assignments(old(self)@, av.take(i as int)));
                assert(av.take(i + 1).drop_last() =~= av.take(i as int));
                assert(av.take(i + 1).last() == av[i as int]);
            }
            let id = assignments[i].0.as_str();
            let fixed = match self.get(id) {
                Some(item) => item.fixed_position,
                None => false,
            };
            if !fixed {
                self.update_angle(id, assignments[i].1);
                proof {
                    let rest = flexible_assignments(old(self)@, av.take(i as int));
                    assert(rest.push(av[i as int]).drop_last() =~= rest);
                }
            }
            i = i + 1;
        }
        proof {
            assert(av.take(i as int) =~= av);
            lemma_with_angles_same_but_angles(old(self)@, flexible_assignments(old(self)@, av));
            lemma_flexible_keeps_fixed(old(self)@, av);
            assert(plan_layout(old(self)@, *plan, self@));
        }
    }

    /// Searches the subtrees of the items (in the collection's order) for an
    /// item with `id`, returning a copy of the first one found.
    pub fn find_item_recursive(&self, id: &str) -> (r: Option<MenuItem>)
        ensures
            r matches Some(x) ==> exists|k: Seq<char>|
                #[trigger] self@.contains_key(k) && find_view(self@[k], id@) == Some(x@),
            r is None ==> forall|k: Seq<char>| #[trigger] self@.contains_key(k) ==> find_view(self@[k], id@) is None,
    {
        let es = self.entries();
        let mut i: usize = 0;
        while i < es.len()
            invariant
                i <= es@.len(),
                is_walk(self@, es@),
                forall|j: int| 0 <= j < i ==> find_view((#[trigger] es@[j].1)@, id@) is None,
            decreases es@.len() - i,
        {
            let found = es[i].1.find_recursive(id);
            if found.is_some() {
                proof {
                    let k = es@[i as int].0@;
                    assert(self@[k] == es@[i as int].1@);
                }
                return found;
            }
            i = i + 1;
        }
        proof {
            assert forall|k: Seq<char>| #[trigger] self@.contains_key(k) implies find_view(self@[k], id@) is None by {
                let j = choose|j: int| 0 <= j < es@.len() && #[trigger] es@[j].0@ == k;
                assert(self@[k] == es@[j].1@);
            }
        }
        None
    }

    /// Replaces the submenu of the item with `parent_id`, searching the
    /// subtrees of the items in the collection's order; the first subtree that
    /// holds it is updated. Returns `true` if the parent was found.
    pub fn replace_submenu_recursive(&mut self, parent_id: &str, new_submenu: Vec<MenuItem>) -> (found: bool)
        ensures
            found ==> exists|k: Seq<char>|
                #[trigger] old(self)@.contains_key(k) && contains_id(old(self)@[k], parent_id@) && final(self)@
                    == old(self)@.insert(k, replace_view(old(self)@[k], parent_id@, items_view(new_submenu@))),
            !found ==> final(self)@ == old(self)@ && forall|k: Seq<char>|
                #[trigger] old(self)@.contains_key(k) ==> !contains_id(old(self)@[k], parent_id@),
    {
        let es = self.entries();
        let mut i: usize = 0;
        while i < es.len()
            invariant
                i <= es@.len(),
                self@ == old(self)@,
                is_walk(self@, es@),
                forall|j: int| 0 <= j < i ==> !contains_id((#[trigger] es@[j].1)@, parent_id@),
            decreases es@.len() - i,
        {
            let mut item = es[i].1.copy();
            let hit = item.replace_submenu_recursive(parent_id, new_submenu.as_slice());
            if hit {
                let key = es[i].0.clone();
                self.insert(key, item);
                proof {
                    let k = es@[i as int].0@;
                    assert(old(self)@[k] == es@[i as int].1@);
                }
                return true;
            }
            i = i + 1;
        }
        proof {
            assert forall|k: Seq<char>| #[trigger] old(self)@.contains_key(k) implies !contains_id(
                old(self)@[k],
                parent_id@,
            ) by {
                let j = choose|j: int| 0 <= j < es@.len() && #[trigger] es@[j].0@ == k;
                assert(self@[k] == es@[j].1@);
            }
        }
        false
    }

    /// A menu holding `items`, each stored under its id (a later item replaces
    /// an earlier one with the same id).
    pub fn from_items(items: Vec<MenuItem>) -> (m: Menu)
        ensures
            m@ == map_of_items(items_view(items@)),
    {
        let mut m = Menu::new();
        let mut i: usize = 0;
        proof {
            lemma_items_view(items@);
        }
        while i < items.len()
            invariant
                i <= items@.len(),
                items_view(items@).len() == items@.len(),
                forall|j: int| 0 <= j < items@.len() ==> #[trigger] items_view(items@)[j] == items@[j]@,
                m@ == map_of_items(items_view(items@).take(i as int)),
            decreases items@.len() - i,
        {
            let item = items[i].copy();
            let key = item.id.clone();
            m.insert(key, item);
            proof {
                let vs = items_view(items@);
                assert(vs.take(i + 1).drop_last() =~= vs.take(i as int));
            }
            i = i + 1;
        }
        proof {
            assert(items_view(items@).take(i as int) =~= items_view(items@));
        }
        m
    }

    /// Copies of the items, in the collection's order.
    pub fn to_items(&self) -> (r: Vec<MenuItem>)
        ensures
            is_item_walk(self@, r@),
    {
        self.items()
    }

    /// Creates a builder for constructing a menu.
    pub fn builder() -> (b: MenuBuilder)
        ensures
            b@ == no_entries(),
    {
        MenuBuilder { menu: Menu::new() }
    }

    /// Sets the angle of the item stored under `id`, if there is one.
    pub fn update_angle(&mut self, id: &str, angle_bits: u32)
        ensures
            final(self)@ == with_angle(old(self)@, id@, angle_bits),
    {
        match self.get(id) {
            Some(mut item) => {
                item.angle_bits = angle_bits;
                let key = id.to_owned();
                self.insert(key, item);
                proof {
                    assert(final(self)@ =~= with_angle(old(self)@, id@, angle_bits));
                }
            },
            None => {},
        }
    }
}

} // verus!
