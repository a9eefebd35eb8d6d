//! Menu items and the tree they form through their submenus.
//!
//! Floating-point attributes of an item (its angle, radius and colours) are
//! held as the IEEE-754 bit patterns of the `f32` values: the tree logic only
//! carries them, and where it orders items by angle it does so through an
//! integer key computed from the bits.

use vstd::prelude::*;
use vstd::string::*;

verus! {

/// The IEEE-754 bit patterns of the four `f32` components of an RGBA colour.
#[derive(Debug, Clone, Copy, PartialEq, Eq, Structural)]
pub struct RgbaBits {
    pub red: u32,
    pub green: u32,
    pub blue: u32,
    pub alpha: u32,
}

/// Bits of the default radius of a menu item (40.0 pixels).
pub const DEFAULT_MENU_ITEM_RADIUS_BITS: u32 = 0x4220_0000u32;

/// Bits of `1.0f32`.
pub const ONE_BITS: u32 = 0x3f80_0000u32;

/// Bits of `0.467f32`.
pub const GREY_467_BITS: u32 = 0x3eef_1aa0u32;

/// Default label color: white, fully opaque.
pub fn default_label_color() -> (c: RgbaBits)
    ensures
        c == (RgbaBits { red: ONE_BITS, green: ONE_BITS, blue: ONE_BITS, alpha: ONE_BITS }),
{
    RgbaBits { red: ONE_BITS, green: ONE_BITS, blue: ONE_BITS, alpha: ONE_BITS }
}

/// Default icon color: grey, about 47% opaque.
pub fn default_icon_color() -> (c: RgbaBits)
    ensures
        c == (RgbaBits { red: GREY_467_BITS, green: GREY_467_BITS, blue: GREY_467_BITS, alpha: GREY_467_BITS }),
{
    RgbaBits { red: GREY_467_BITS, green: GREY_467_BITS, blue: GREY_467_BITS, alpha: GREY_467_BITS }
}

/// A single item in a pie menu.
#[derive(Debug)]
pub struct MenuItem {
    /// The unique identifier.
    pub id: String,
    /// The label of the menu item.
    pub label: String,
    /// The color of the label.
    pub label_color: RgbaBits,
    /// The icon name of the menu item.
    pub icon_name: String,
    /// The color of the icon.
    pub color: RgbaBits,
    /// Bits of the angle of the menu item in degrees.
    pub angle_bits: u32,
    /// Bits of the radius in pixels (the default radius is used if not set).
    pub radius_bits: Option<u32>,
    /// The name of the event triggered when the menu item is selected.
    pub event: String,
    /// Whether the menu item is enabled (clickable).
    pub enabled: bool,
    /// When `true`, the angle is a fixed semantic position that
    /// auto-distribution does not re-assign.
    pub fixed_position: bool,
    /// Whether the pie menu closes after this item is clicked.
    pub close_on_click: bool,
    /// Optional submenu items; ids are meant to be unique over the whole tree.
    pub submenu: Option<Vec<MenuItem>>,
}

/// The mathematical value of a [`MenuItem`]: its strings as character
/// sequences and its submenu as a sequence of item values.
#[verifier::ext_equal]
pub struct ItemView {
    pub id: Seq<char>,
    pub label: Seq<char>,
    pub label_color: RgbaBits,
    pub icon_name: Seq<char>,
    pub color: RgbaBits,
    pub angle_bits: u32,
    pub radius_bits: Option<u32>,
    pub event: Seq<char>,
    pub enabled: bool,
    pub fixed_position: bool,
    pub close_on_click: bool,
    pub submenu: Option<Seq<ItemView>>,
}

/// The value of one item.
pub open spec fn item_view(item: MenuItem) -> ItemView
    decreases item,
{
    ItemView {
        id: item.id@,
        label: item.label@,
        label_color: item.label_color,
        icon_name: item.icon_name@,
        color: item.color,
        angle_bits: item.angle_bits,
        radius_bits: item.radius_bits,
        event: item.event@,
        enabled: item.enabled,
        fixed_position: item.fixed_position,
        close_on_click: item.close_on_click,
        submenu: match item.submenu {
            Some(v) => Some(items_view(v@)),
            None => None,
        },
    }
}

/// The values of a sequence of items, in order.
pub open spec fn items_view(items: Seq<MenuItem>) -> Seq<ItemView>
    decreases items,
{
    if items.len() == 0 {
        Seq::empty()
    } else {
        items_view(items.drop_last()).push(item_view(items.last()))
    }
}

impl View for MenuItem {
    type V = ItemView;

    open spec fn view(&self) -> ItemView {
        item_view(*self)
    }
}

/// The value held by an optional item.
pub open spec fn opt_view(o: Option<MenuItem>) -> Option<ItemView> {
    match o {
        Some(x) => Some(x@),
        None => None,
    }
}

/// `items_view` maps each item to its value.
pub proof fn lemma_items_view(items: Seq<MenuItem>)
    ensures
        items_view(items).len() == items.len(),
        forall|i: int| 0 <= i < items.len() ==> #[trigger] items_view(items)[i] == items[i]@,
    decreases items.len(),
{
    if items.len() > 0 {
        lemma_items_view(items.drop_last());
    }
}

/// Two item sequences with the same item values have the same value.
pub proof fn lemma_items_view_ext(a: Seq<MenuItem>, b: Seq<MenuItem>)
    requires
        a.len() == b.len(),
        forall|i: int| 0 <= i < a.len() ==> a[i]@ == b[i]@,
    ensures
        items_view(a) == items_view(b),
{
    lemma_items_view(a);
    lemma_items_view(b);
    assert(items_view(a) =~= items_view(b));
}

/// The number of items in the subtree of `v`.
pub open spec fn view_size(v: ItemView) -> nat
    decreases v,
{
    1 + match v.submenu {
        Some(s) => views_size(s),
        None => 0,
    }
}

/// The number of items in the subtrees of `s`.
pub open spec fn views_size(s: Seq<ItemView>) -> nat
    decreases s,
{
    if s.len() == 0 {
        0
    } else {
        views_size(s.drop_last()) + view_size(s.last())
    }
}

/// Each subtree of a sequence is no larger than the whole sequence.
pub proof fn lemma_views_size_elem(s: Seq<ItemView>, i: int)
    requires
        0 <= i < s.len(),
    ensures
        view_size(s[i]) <= views_size(s),
    decreases s.len(),
{
    if i < s.len() - 1 {
        lemma_views_size_elem(s.drop_last(), i);
    }
}

/// Depth-first search (the item, then its submenu in order) for the first item with `id`.
pub open spec fn find_view(v: ItemView, id: Seq<char>) -> Option<ItemView>
    decreases v,
{
    if v.id == id {
        Some(v)
    } else {
        match v.submenu {
            Some(s) => find_in_views(s, id),
            None => None,
        }
    }
}

/// Depth-first search through a sequence of item values, in order.
pub open spec fn find_in_views(s: Seq<ItemView>, id: Seq<char>) -> Option<ItemView>
    decreases s,
{
    if s.len() == 0 {
        None
    } else {
        match find_view(s[0], id) {
            Some(x) => Some(x),
            None => find_in_views(s.drop_first(), id),
        }
    }
}

/// Whether the subtree of `v` holds an item with `id`.
pub open spec fn contains_id(v: ItemView, id: Seq<char>) -> bool {
    find_view(v, id) is Some
}

/// The subtree of `v` with the submenu of the first item (in search order)
/// that has id `parent` replaced by `sub`.
pub open spec fn replace_view(v: ItemView, parent: Seq<char>, sub: Seq<ItemView>) -> ItemView
    decreases v,
{
    if v.id == parent {
        ItemView { submenu: Some(sub), ..v }
    } else {
        match v.submenu {
            Some(s) => ItemView { submenu: Some(replace_in_views(s, parent, sub)), ..v },
            None => v,
        }
    }
}

/// Replacement in the first subtree of `s` that holds `parent`.
pub open spec fn replace_in_views(s: Seq<ItemView>, parent: Seq<char>, sub: Seq<ItemView>) -> Seq<
    ItemView,
>
    decreases s,
{
    if s.len() == 0 {
        s
    } else if find_view(s[0], parent) is Some {
        seq![replace_view(s[0], parent, sub)] + s.drop_first()
    } else {
        seq![s[0]] + replace_in_views(s.drop_first(), parent, sub)
    }
}

/// Searching a sequence past a prefix of subtrees that do not hold `id`.
proof fn lemma_find_skip(s: Seq<ItemView>, id: Seq<char>, i: int)
    requires
        0 <= i <= s.len(),
        forall|j: int| 0 <= j < i ==> find_view(#[trigger] s[j], id) is None,
    ensures
        find_in_views(s, id) == find_in_views(s.skip(i), id),
    decreases i,
{
    if i > 0 {
        assert(s.drop_first().skip(i - 1) =~= s.skip(i));
        assert(find_view(s[0], id) is None);
        lemma_find_skip(s.drop_first(), id, i - 1);
    } else {
        assert(s.skip(0) =~= s);
    }
}

/// Replacement in a sequence past a prefix of subtrees that do not hold `parent`.
proof fn lemma_replace_skip(s: Seq<ItemView>, parent: Seq<char>, sub: Seq<ItemView>, i: int)
    requires
        0 <= i <= s.len(),
        forall|j: int| 0 <= j < i ==> find_view(#[trigger] s[j], parent) is None,
    ensures
        replace_in_views(s, parent, sub) == s.take(i) + replace_in_views(s.skip(i), parent, sub),
    decreases i,
{
    if i > 0 {
        assert(s.drop_first().skip(i - 1) =~= s.skip(i));
        assert(find_view(s[0], parent) is None);
        lemma_replace_skip(s.drop_first(), parent, sub, i - 1);
        assert(s.take(i) =~= seq![s[0]] + s.drop_first().take(i - 1));
    } else {
        assert(s.skip(0) =~= s);
        assert(s.take(0) + s =~= s);
    }
}

/// Searching a subtree for `parent` after its submenu was replaced by `sub`
/// finds the parent again, now with `sub` as its submenu.
pub proof fn lemma_find_after_replace(v: ItemView, parent: Seq<char>, sub: Seq<ItemView>)
    requires
        contains_id(v, parent),
    ensures
        find_view(replace_view(v, parent, sub), parent) matches Some(x) && x.id == parent && x.submenu == Some(sub),
    decreases v,
{
    if v.id != parent {
        let s = v.submenu->0;
        lemma_find_in_views_after_replace(s, parent, sub);
    }
}

/// The sequence form of [`lemma_find_after_replace`].
pub proof fn lemma_find_in_views_after_replace(s: Seq<ItemView>, parent: Seq<char>, sub: Seq<ItemView>)
    requires
        find_in_views(s, parent) is Some,
    ensures
        find_in_views(replace_in_views(s, parent, sub), parent) matches Some(x) && x.id == parent && x.submenu == Some(sub),
    decreases s,
{
    let r = replace_in_views(s, parent, sub);
    if find_view(s[0], parent) is Some {
        lemma_find_after_replace(s[0], parent, sub);
        assert(r[0] == replace_view(s[0], parent, sub));
    } else {
        lemma_find_in_views_after_replace(s.drop_first(), parent, sub);
        assert(r[0] == s[0]);
        assert(r.drop_first() =~= replace_in_views(s.drop_first(), parent, sub));
    }
}

/// Replacing the submenu of an id that a subtree does not hold leaves the
/// subtree as it is.
pub proof fn lemma_replace_absent_keeps_view(v: ItemView, parent: Seq<char>, sub: Seq<ItemView>)
    requires
        find_view(v, parent) is None,
    ensures
        replace_view(v, parent, sub) == v,
    decreases v,
{
    if let Some(s) = v.submenu {
        lemma_replace_absent_keeps_views(s, parent, sub);
    }
}

/// The sequence form of [`lemma_replace_absent_keeps_view`].
pub proof fn lemma_replace_absent_keeps_views(s: Seq<ItemView>, parent: Seq<char>, sub: Seq<ItemView>)
    requires
        find_in_views(s, parent) is None,
    ensures
        replace_in_views(s, parent, sub) == s,
    decreases s,
{
    if s.len() > 0 {
        lemma_replace_absent_keeps_view(s[0], parent, sub);
        lemma_replace_absent_keeps_views(s.drop_first(), parent, sub);
        assert(seq![s[0]] + s.drop_first() =~= s);
    }
}

/// Replacing a submenu keeps the shape of the tree: the item keeps every
/// attribute but its submenu.
pub proof fn lemma_replace_keeps_item(v: ItemView, parent: Seq<char>, sub: Seq<ItemView>)
    ensures
        (ItemView { submenu: v.submenu, ..replace_view(v, parent, sub) }) == v,
        v.id == parent ==> replace_view(v, parent, sub).submenu == Some(sub),
{
}

/// Replacing a submenu among siblings keeps every sibling in its place: the
/// sequence keeps its length, only the first subtree that holds `parent` is
/// replaced, and every other subtree is unchanged.
pub proof fn lemma_replace_keeps_siblings(s: Seq<ItemView>, parent: Seq<char>, sub: Seq<ItemView>)
    ensures
        replace_in_views(s, parent, sub).len() == s.len(),
        forall|i: int|
            0 <= i < s.len() && find_view(#[trigger] s[i], parent) is None ==> replace_in_views(s, parent, sub)[i]
                == s[i],
        forall|i: int, j: int|
            0 <= j < i < s.len() && find_view(#[trigger] s[j], parent) is Some ==> replace_in_views(s, parent, sub)[i]
                == #[trigger] s[i],
        forall|i: int|
            0 <= i < s.len() && find_view(#[trigger] s[i], parent) is Some && (forall|j: int|
                0 <= j < i ==> find_view(#[trigger] s[j], parent) is None) ==> replace_in_views(s, parent, sub)[i]
                == replace_view(s[i], parent, sub),
    decreases s.len(),
{
    let r = replace_in_views(s, parent, sub);
    if s.len() > 0 {
        let t = s.drop_first();
        if find_view(s[0], parent) is Some {
            assert(r.len() == s.len());
            assert forall|i: int|
                0 <= i < s.len() && find_view(#[trigger] s[i], parent) is None implies r[i] == s[i] by {
                assert(i != 0);
            }
            assert forall|i: int, j: int|
                0 <= j < i < s.len() && find_view(#[trigger] s[j], parent) is Some implies r[i] == #[trigger] s[i] by {
                assert(i != 0);
            }
            assert forall|i: int|
                0 <= i < s.len() && find_view(#[trigger] s[i], parent) is Some && (forall|j: int|
                    0 <= j < i ==> find_view(#[trigger] s[j], parent) is None) implies r[i] == replace_view(
                s[i],
                parent,
                sub,
            ) by {
                if i > 0 {
                    assert(find_view(s[0], parent) is None);
                }
            }
        } else {
            lemma_replace_keeps_siblings(t, parent, sub);
            let rt = replace_in_views(t, parent, sub);
            assert(r =~= seq![s[0]] + rt);
            assert forall|i: int|
                0 <= i < s.len() && find_view(#[trigger] s[i], parent) is None implies r[i] == s[i] by {
                if i > 0 {
                    assert(t[i - 1] == s[i]);
                }
            }
            assert forall|i: int, j: int|
                0 <= j < i < s.len() && find_view(#[trigger] s[j], parent) is Some implies r[i] == #[trigger] s[i] by {
                assert(j > 0);
                assert(t[j - 1] == s[j]);
                assert(t[i - 1] == s[i]);
            }
            assert forall|i: int|
                0 <= i < s.len() && find_view(#[trigger] s[i], parent) is Some && (forall|j: int|
                    0 <= j < i ==> find_view(#[trigger] s[j], parent) is None) implies r[i] == replace_view(
                s[i],
                parent,
                sub,
            ) by {
                assert(i > 0);
                assert(t[i - 1] == s[i]);
                assert forall|j: int| 0 <= j < i - 1 implies find_view(#[trigger] t[j], parent) is None by {
                    assert(t[j] == s[j + 1]);
                }
            }
        }
    }
}

/// Compares a stored id with a text.
pub fn same_id(a: &String, b: &str) -> (r: bool)
    ensures
        r == (a@ == b@),
{
    let b2 = b.to_owned();
    *a == b2
}

/// Copies a sequence of items.
pub fn clone_items(v: &Vec<MenuItem>) -> (r: Vec<MenuItem>)
    ensures
        r@.len() == v@.len(),
        forall|i: int| 0 <= i < v@.len() ==> #[trigger] r@[i]@ == v@[i]@,
        items_view(r@) == items_view(v@),
    decreases views_size(items_view(v@)), 2int,
{
    proof {
        lemma_items_view(v@);
    }
    let mut r: Vec<MenuItem> = Vec::new();
    let mut i: usize = 0;
    while i < v.len()
        invariant
            i <= v@.len(),
            r@.len() == i,
            forall|j: int| 0 <= j < i ==> #[trigger] r@[j]@ == v@[j]@,
            items_view(v@).len() == v@.len(),
            forall|k: int| 0 <= k < v@.len() ==> #[trigger] items_view(v@)[k] == v@[k]@,
        decreases v@.len() - i,
    {
        proof {
            lemma_views_size_elem(items_view(v@), i as int);
        }
        let c = v[i].copy();
        r.push(c);
        i = i + 1;
    }
    proof {
        lemma_items_view_ext(r@, v@);
    }
    r
}

impl MenuItem {
    /// A copy of this item (with a copy of its whole submenu tree).
    pub fn copy(&self) -> (r: MenuItem)
        ensures
            r@ == self@,
        decreases view_size(self@), 1int,
    {
        let submenu = match &self.submenu {
            Some(v) => Some(clone_items(v)),
            None => None,
        };
        MenuItem {
            id: self.id.clone(),
            label: self.label.clone(),
            label_color: self.label_color,
            icon_name: self.icon_name.clone(),
            color: self.color,
            angle_bits: self.angle_bits,
            radius_bits: self.radius_bits,
            event: self.event.clone(),
            enabled: self.enabled,
            fixed_position: self.fixed_position,
            close_on_click: self.close_on_click,
            submenu,
        }
    }

    /// Returns the radius bits, falling back to the default radius if not set.
    pub fn radius(&self) -> (r: u32)
        ensures
            r == match self.radius_bits {
                Some(b) => b,
                None => DEFAULT_MENU_ITEM_RADIUS_BITS,
            },
    {
        match self.radius_bits {
            Some(b) => b,
            None => DEFAULT_MENU_ITEM_RADIUS_BITS,
        }
    }

    /// Recursively searches for an item with the given id in this item's subtree
    /// (this item first, then each submenu item's subtree in order).
    /// Returns a copy of the found item, or `None` if not found.
    pub fn find_recursive(&self, id: &str) -> (r: Option<MenuItem>)
        ensures
            opt_view(r) == find_view(self@, id@),
        decreases view_size(self@),
    {
        if same_id(&self.id, id) {
            return Some(self.copy());
        }
        match &self.submenu {
            Some(v) => {
                let ghost s = items_view(v@);
                proof {
                    lemma_items_view(v@);
                    assert(self@.submenu == Some(s));
                }
                let mut i: usize = 0;
                while i < v.len()
                    invariant
                        i <= v@.len(),
                        s == items_view(v@),
                        s.len() == v@.len(),
                        forall|k: int| 0 <= k < v@.len() ==> #[trigger] s[k] == v@[k]@,
                        forall|j: int| 0 <= j < i ==> find_view(#[trigger] s[j], id@) is None,
                        self@.submenu == Some(s),
                        self@.id != id@,
                    decreases v@.len() - i,
                {
                    proof {
                        lemma_views_size_elem(s, i as int);
                    }
                    let found = v[i].find_recursive(id);
                    if found.is_some() {
                        proof {
                            lemma_find_skip(s, id@, i as int);
                            assert(s.skip(i as int)[0] == s[i as int]);
                        }
                        return found;
                    }
                    i = i + 1;
                }
                proof {
                    lemma_find_skip(s, id@, i as int);
                }
                None
            },
            None => None,
        }
    }

    /// Recursively replaces the submenu of the first item with `parent_id`
    /// (in search order) by a copy of `new_submenu`.
    /// Returns `true` if the parent was found and updated.
    pub fn replace_submenu_recursive(&mut self, parent_id: &str, new_submenu: &[MenuItem]) -> (found: bool)
        ensures
            found == contains_id(old(self)@, parent_id@),
            final(self)@ == replace_view(old(self)@, parent_id@, items_view(new_submenu@)),
        decreases view_size(old(self)@),
    {
        if same_id(&self.id, parent_id) {
            let v = slice_copy(new_submenu);
            self.submenu = Some(v);
            proof {
                assert(self@ =~= replace_view(old(self)@, parent_id@, items_view(new_submenu@)));
            }
            return true;
        }
        let taken = self.submenu.take();
        match taken {
            Some(mut v) => {
                let ghost v0 = v@;
                let ghost s = items_view(v0);
                proof {
                    lemma_items_view(v0);
                    assert(old(self)@.submenu == Some(s));
                }
                let mut i: usize = 0;
                let mut found = false;
                while i < v.len()
                    invariant
                        v0 == old(self).submenu->0@,
                        s == items_view(v0),
                        s.len() == v0.len(),
                        v@.len() == v0.len(),
                        i <= v0.len(),
                        !found,
                        forall|k: int| 0 <= k < v0.len() ==> #[trigger] s[k] == v0[k]@,
                        forall|k: int| 0 <= k < v0.len() ==> #[trigger] v@[k] == v0[k],
                        forall|j: int| 0 <= j < i ==> find_view(#[trigger] s[j], parent_id@) is None,
                        old(self)@.submenu == Some(s),
                        old(self)@.id != parent_id@,
                        self.submenu is None,
                        self.id == old(self).id,
                        self.label == old(self).label,
                        self.icon_name == old(self).icon_name,
                        self.event == old(self).event,
                        self.label_color == old(self).label_color,
                        self.color == old(self).color,
                        self.angle_bits == old(self).angle_bits,
                        self.radius_bits == old(self).radius_bits,
                        self.enabled == old(self).enabled,
                        self.fixed_position == old(self).fixed_position,
                        self.close_on_click == old(self).close_on_click,
                    decreases v0.len() - i,
                {
                    proof {
                        lemma_views_size_elem(s, i as int);
                    }
                    let mut child = v[i].copy();
                    let hit = child.replace_submenu_recursive(parent_id, new_submenu);
                    if hit {
                        let ghost before = v@;
                        v.set(i, child);
                        proof {
                            lemma_replace_skip(s, parent_id@, items_view(new_submenu@), i as int);
                            lemma_find_skip(s, parent_id@, i as int);
                            lemma_items_view(v@);
                            let sk = s.skip(i as int);
                            assert(sk[0] == s[i as int]);
                            assert(sk.drop_first() =~= s.skip(i + 1));
                            let expect = replace_in_views(s, parent_id@, items_view(new_submenu@));
                            assert(items_view(v@) =~= expect);
                        }
                        found = true;
                        self.submenu = Some(v);
                        proof {
                            assert(self@ =~= replace_view(old(self)@, parent_id@, items_view(new_submenu@)));
                        }
                        return true;
                    }
                    i = i + 1;
                }
                proof {
                    lemma_replace_skip(s, parent_id@, items_view(new_submenu@), i as int);
                    lemma_find_skip(s, parent_id@, i as int);
                    assert(s.take(i as int) =~= s);
                    assert(s.skip(i as int) =~= Seq::<ItemView>::empty());
                }
                self.submenu = Some(v);
                proof {
                    lemma_items_view_ext(v@, v0);
                    assert(self@ =~= replace_view(old(self)@, parent_id@, items_view(new_submenu@)));
                }
                false
            },
            None => {
                proof {
                    assert(self@ =~= old(self)@);
                }
                false
            },
        }
    }
}

/// Items are equal when their ids are.
impl PartialEq for MenuItem {
    fn eq(&self, other: &Self) -> (r: bool) {
        self.id == other.id
    }
}

impl vstd::std_specs::cmp::PartialEqSpecImpl for MenuItem {
    open spec fn obeys_eq_spec() -> bool {
        true
    }

    open spec fn eq_spec(&self, other: &Self) -> bool {
        self.id@ == other.id@
    }
}

impl Eq for MenuItem {
}

/// The text of an optional string.
pub open spec fn opt_str(o: Option<String>) -> Option<Seq<char>> {
    match o {
        Some(s) => Some(s@),
        None => None,
    }
}

/// Builds a [`MenuItem`] one field at a time. The id, label, icon name, angle
/// and event must be set; the other fields have defaults (the default colours,
/// no radius, enabled, not fixed, closing on click, no submenu).
pub struct MenuItemBuilder {
    pub id: Option<String>,
    pub label: Option<String>,
    pub label_color: RgbaBits,
    pub icon_name: Option<String>,
    pub color: RgbaBits,
    pub angle_bits: Option<u32>,
    pub radius_bits: Option<u32>,
    pub event: Option<String>,
    pub enabled: bool,
    pub fixed_position: bool,
    pub close_on_click: bool,
    pub submenu: Option<Vec<MenuItem>>,
}

impl MenuItemBuilder {
    /// Every field without a default has been set.
    pub open spec fn is_complete(&self) -> bool {
        &&& self.id is Some
        &&& self.label is Some
        &&& self.icon_name is Some
        &&& self.angle_bits is Some
        &&& self.event is Some
    }

    /// Sets the id.
    pub fn id(self, id: &str) -> (b: MenuItemBuilder)
        ensures
            opt_str(b.id) == Some(id@),
            b == (MenuItemBuilder { id: b.id, ..self }),
    {
        MenuItemBuilder { id: Some(id.to_owned()), ..self }
    }

    /// Sets the label.
    pub fn label(self, label: &str) -> (b: MenuItemBuilder)
        ensures
            opt_str(b.label) == Some(label@),
            b == (MenuItemBuilder { label: b.label, ..self }),
    {
        MenuItemBuilder { label: Some(label.to_owned()), ..self }
    }

    /// Sets the label colour.
    pub fn label_color(self, label_color: RgbaBits) -> (b: MenuItemBuilder)
        ensures
            b == (MenuItemBuilder { label_color, ..self }),
    {
        MenuItemBuilder { label_color, ..self }
    }

    /// Sets the icon name.
    pub fn icon_name(self, icon_name: &str) -> (b: MenuItemBuilder)
        ensures
            opt_str(b.icon_name) == Some(icon_name@),
            b == (MenuItemBuilder { icon_name: b.icon_name, ..self }),
    {
        MenuItemBuilder { icon_name: Some(icon_name.to_owned()), ..self }
    }

    /// Sets the icon colour.
    pub fn color(self, color: RgbaBits) -> (b: MenuItemBuilder)
        ensures
            b == (MenuItemBuilder { color, ..self }),
    {
        MenuItemBuilder { color, ..self }
    }

    /// Sets the bits of the angle in degrees.
    pub fn angle(self, angle_bits: u32) -> (b: MenuItemBuilder)
        ensures
            b == (MenuItemBuilder { angle_bits: Some(angle_bits), ..self }),
    {
        MenuItemBuilder { angle_bits: Some(angle_bits), ..self }
    }

    /// Sets the bits of the radius in pixels.
    pub fn radius(self, radius_bits: u32) -> (b: MenuItemBuilder)
        ensures
            b == (MenuItemBuilder { radius_bits: Some(radius_bits), ..self }),
    {
        MenuItemBuilder { radius_bits: Some(radius_bits), ..self }
    }

    /// Sets the event name.
    pub fn event(self, event: &str) -> (b: MenuItemBuilder)
        ensures
            opt_str(b.event) == Some(event@),
            b == (MenuItemBuilder { event: b.event, ..self }),
    {
        MenuItemBuilder { event: Some(event.to_owned()), ..self }
    }

    /// Sets whether the item is enabled.
    pub fn enabled(self, enabled: bool) -> (b: MenuItemBuilder)
        ensures
            b == (MenuItemBuilder { enabled, ..self }),
    {
        MenuItemBuilder { enabled, ..self }
    }

    /// Sets whether the angle is a fixed position.
    pub fn fixed_position(self, fixed_position: bool) -> (b: MenuItemBuilder)
        ensures
            b == (MenuItemBuilder { fixed_position, ..self }),
    {
        MenuItemBuilder { fixed_position, ..self }
    }

    /// Sets whether the menu closes after the item is clicked.
    pub fn close_on_click(self, close_on_click: bool) -> (b: MenuItemBuilder)
        ensures
            b == (MenuItemBuilder { close_on_click, ..self }),
    {
        MenuItemBuilder { close_on_click, ..self }
    }

    /// Sets the submenu items.
    pub fn submenu(self, submenu: Vec<MenuItem>) -> (b: MenuItemBuilder)
        ensures
            b == (MenuItemBuilder { submenu: Some(submenu), ..self }),
    {
        MenuItemBuilder { submenu: Some(submenu), ..self }
    }

    /// The item with the fields set so far.
    pub fn build(self) -> (item: MenuItem)
        requires
            self.is_complete(),
        ensures
            item == (MenuItem {
                id: self.id->0,
                label: self.label->0,
                label_color: self.label_color,
                icon_name: self.icon_name->0,
                color: self.color,
                angle_bits: self.angle_bits->0,
                radius_bits: self.radius_bits,
                event: self.event->0,
                enabled: self.enabled,
                fixed_position: self.fixed_position,
                close_on_click: self.close_on_click,
                submenu: self.submenu,
            }),
    {
        MenuItem {
            id: self.id.unwrap(),
            label: self.label.unwrap(),
            label_color: self.label_color,
            icon_name: self.icon_name.unwrap(),
            color: self.color,
            angle_bits: self.angle_bits.unwrap(),
            radius_bits: self.radius_bits,
            event: self.event.unwrap(),
            enabled: self.enabled,
            fixed_position: self.fixed_position,
            close_on_click: self.close_on_click,
            submenu: self.submenu,
        }
    }
}

impl MenuItem {
    /// A builder with no field set yet and the defaults in place.
    pub fn builder() -> (b: MenuItemBuilder)
        ensures
            b.id is None && b.label is None && b.icon_name is None && b.angle_bits is None && b.event is None,
            b.label_color == (RgbaBits { red: ONE_BITS, green: ONE_BITS, blue: ONE_BITS, alpha: ONE_BITS }),
            b.color == (RgbaBits { red: GREY_467_BITS, green: GREY_467_BITS, blue: GREY_467_BITS, alpha: GREY_467_BITS }),
            b.radius_bits is None,
            b.enabled,
            !b.fixed_position,
            b.close_on_click,
            b.submenu is None,
    {
        MenuItemBuilder {
            id: None,
            label: None,
            label_color: default_label_color(),
            icon_name: None,
            color: default_icon_color(),
            angle_bits: None,
            radius_bits: None,
            event: None,
            enabled: true,
            fixed_position: false,
            close_on_click: true,
            submenu: None,
        }
    }
}

/// Copies a slice of items into a vector.
pub fn slice_copy(s: &[MenuItem]) -> (r: Vec<MenuItem>)
    ensures
        items_view(r@) == items_view(s@),
{
    let mut r: Vec<MenuItem> = Vec::new();
    let mut i: usize = 0;
    while i < s.len()
        invariant
            i <= s@.len(),
            r@.len() == i,
            forall|j: int| 0 <= j < i ==> #[trigger] r@[j]@ == s@[j]@,
        decreases s@.len() - i,
    {
        let c = s[i].copy();
        r.push(c);
        i = i + 1;
    }
    proof {
        lemma_items_view_ext(r@, s@);
    }
    r
}

} // verus!
