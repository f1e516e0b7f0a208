//! The tray menu: its items, its layout tree and their wire properties.
//!
//! The menu is a flat list under one root: a header, three rows per quota
//! window (label, bar, burn projection), a throttled row, an error row and the
//! actions. Ids are stable: a row that is not needed is hidden, never removed,
//! so that a panel's cached layout stays valid. Every visible change raises the
//! revision.
use crate::text::{opt_view, same};
use std::collections::HashMap;
use vstd::prelude::*;

verus! {

broadcast use vstd::std_specs::hash::group_hash_axioms;

/// What clicking an action item asks for.
#[derive(Debug, Clone, Copy, PartialEq, Eq, Structural)]
pub enum MenuCommand {
    /// Refresh now, without changing the schedule.
    Refresh,
    /// Open the plan's dashboard.
    OpenDashboard,
    /// Ask for an API key and store it.
    SetApiKey,
    /// Shut the tray down.
    Quit,
}

pub const ROOT_ID: i32 = 0;

pub const HEADER_ID: i32 = 1;

pub const THROTTLED_ID: i32 = 200;

pub const ERROR_ID: i32 = 210;

pub const SEP_1_ID: i32 = 300;

pub const REFRESH_ID: i32 = 301;

pub const SEP_2_ID: i32 = 302;

pub const DASHBOARD_ID: i32 = 303;

pub const SET_KEY_ID: i32 = 304;

pub const SEP_3_ID: i32 = 305;

pub const QUIT_ID: i32 = 306;

/// As many window slots as ids can be given to.
pub const MAX_SLOTS: usize = 715_827_813;

/// The window slots whose ids lie below those of the fixed items; the ids of all
/// others lie above them.
pub const RESERVED_SLOTS: usize = 33;

/// The id of the `j`th window row; each window has three.
pub open spec fn row_id(j: int) -> i32 {
    (if j < 99 {
        100 + j
    } else {
        208 + j
    }) as i32
}

/// Id of the label row of window `idx`.
pub fn window_id(idx: usize) -> (id: i32)
    requires
        idx < MAX_SLOTS,
    ensures
        id == row_id(3 * idx),
        id == (if idx < RESERVED_SLOTS {
            100 + 3 * idx
        } else {
            307 + 3 * (idx - RESERVED_SLOTS)
        }),
{
    if idx < RESERVED_SLOTS {
        100 + (idx as i32) * 3
    } else {
        307 + ((idx - RESERVED_SLOTS) as i32) * 3
    }
}

/// Id of the bar row of window `idx`.
pub fn bar_id(idx: usize) -> (id: i32)
    requires
        idx < MAX_SLOTS,
    ensures
        id == row_id(3 * idx + 1),
        id == (if idx < RESERVED_SLOTS {
            101 + 3 * idx
        } else {
            308 + 3 * (idx - RESERVED_SLOTS)
        }),
{
    if idx < RESERVED_SLOTS {
        101 + (idx as i32) * 3
    } else {
        308 + ((idx - RESERVED_SLOTS) as i32) * 3
    }
}

/// Id of the burn row of window `idx`.
pub fn burn_id(idx: usize) -> (id: i32)
    requires
        idx < MAX_SLOTS,
    ensures
        id == row_id(3 * idx + 2),
        id == (if idx < RESERVED_SLOTS {
            102 + 3 * idx
        } else {
            309 + 3 * (idx - RESERVED_SLOTS)
        }),
{
    if idx < RESERVED_SLOTS {
        102 + (idx as i32) * 3
    } else {
        309 + ((idx - RESERVED_SLOTS) as i32) * 3
    }
}

// ---------------------------------------------------------------------------
// Items
// ---------------------------------------------------------------------------

/// One menu item.
#[derive(Debug)]
pub struct MenuItem {
    pub id: i32,
    pub label: String,
    pub enabled: bool,
    pub visible: bool,
    /// A horizontal line without a label.
    pub separator: bool,
    /// What a click asks for, if anything.
    pub action: Option<MenuCommand>,
}

/// A menu item as a mathematical value.
pub struct Item {
    pub id: i32,
    pub label: Seq<char>,
    pub enabled: bool,
    pub visible: bool,
    pub separator: bool,
    pub action: Option<MenuCommand>,
}

impl View for MenuItem {
    type V = Item;

    open spec fn view(&self) -> Item {
        Item {
            id: self.id,
            label: self.label@,
            enabled: self.enabled,
            visible: self.visible,
            separator: self.separator,
            action: self.action,
        }
    }
}

/// A plain row.
pub open spec fn standard_item(id: i32, label: Seq<char>, enabled: bool, visible: bool) -> Item {
    Item { id, label, enabled, visible, separator: false, action: None }
}

/// An enabled, visible row that asks for something when clicked.
pub open spec fn action_item(id: i32, label: Seq<char>, action: MenuCommand) -> Item {
    Item { id, label, enabled: true, visible: true, separator: false, action: Some(action) }
}

/// A horizontal line.
pub open spec fn separator_item(id: i32) -> Item {
    Item {
        id,
        label: Seq::empty(),
        enabled: true,
        visible: true,
        separator: true,
        action: None,
    }
}

impl Clone for MenuItem {
    fn clone(&self) -> (r: MenuItem)
        ensures
            r@ == self@,
    {
        MenuItem {
            id: self.id,
            label: self.label.clone(),
            enabled: self.enabled,
            visible: self.visible,
            separator: self.separator,
            action: self.action,
        }
    }
}

impl MenuItem {
    /// A plain row.
    pub fn standard(id: i32, label: &str, enabled: bool, visible: bool) -> (r: MenuItem)
        ensures
            r@ == standard_item(id, label@, enabled, visible),
    {
        MenuItem {
            id,
            label: label.to_owned(),
            enabled,
            visible,
            separator: false,
            action: None,
        }
    }

    /// An enabled, visible row that asks for something when clicked.
    pub fn action(id: i32, label: &str, action: MenuCommand) -> (r: MenuItem)
        ensures
            r@ == action_item(id, label@, action),
    {
        MenuItem {
            id,
            label: label.to_owned(),
            enabled: true,
            visible: true,
            separator: false,
            action: Some(action),
        }
    }

    /// A horizontal line.
    pub fn separator(id: i32) -> (r: MenuItem)
        ensures
            r@ == separator_item(id),
    {
        MenuItem {
            id,
            label: String::new(),
            enabled: true,
            visible: true,
            separator: true,
            action: None,
        }
    }
}

// ---------------------------------------------------------------------------
// The menu
// ---------------------------------------------------------------------------

/// The menu as a mathematical value.
pub struct Menu {
    pub items: Map<i32, Item>,
    /// Window slots that ids have been given to.
    pub slots: nat,
    pub revision: u32,
}

/// The revision after a change.
pub open spec fn next_revision(r: u32) -> u32 {
    if r == u32::MAX {
        0
    } else {
        (r + 1) as u32
    }
}

/// The ids of the rows of the first `n` windows: label, bar and burn row each.
pub open spec fn slot_ids(n: nat) -> Seq<i32>
    decreases n,
{
    if n == 0 {
        Seq::empty()
    } else {
        slot_ids((n - 1) as nat).push(row_id(3 * (n - 1))).push(
            row_id(3 * (n - 1) + 1),
        ).push(row_id(3 * (n - 1) + 2))
    }
}

/// The ids of everything below the window rows.
pub open spec fn fixed_tail() -> Seq<i32> {
    seq![
        THROTTLED_ID,
        ERROR_ID,
        SEP_1_ID,
        REFRESH_ID,
        SEP_2_ID,
        DASHBOARD_ID,
        SET_KEY_ID,
        SEP_3_ID,
        QUIT_ID,
    ]
}

/// The children of the root in render order.
pub open spec fn root_children(slots: nat) -> Seq<i32> {
    seq![HEADER_ID] + slot_ids(slots) + fixed_tail()
}

/// The children of an item in render order.
pub open spec fn children_of(slots: nat, parent: i32) -> Seq<i32> {
    if parent == ROOT_ID {
        root_children(slots)
    } else {
        Seq::empty()
    }
}

/// Whether an id is that of a fixed item.
pub open spec fn is_fixed(id: i32) -> bool {
    id == ROOT_ID || id == HEADER_ID || fixed_tail().contains(id)
}

/// Whether an id is that of a row of one of the windows `from..to`.
pub open spec fn in_slots(id: i32, from: nat, to: nat) -> bool {
    ||| id < 199 && 100 + 3 * from <= id < 100 + 3 * to
    ||| 307 <= id && 208 + 3 * from <= id < 208 + 3 * to
}

/// Whether an id is that of a row of one of the first `slots` windows.
pub open spec fn is_slot(id: i32, slots: nat) -> bool {
    in_slots(id, 0, slots)
}

/// What holds of every menu: the items are the fixed ones and the slots' rows,
/// each under its own id.
pub open spec fn menu_wf(m: Menu) -> bool {
    &&& m.slots <= MAX_SLOTS
    &&& forall|id: i32| #[trigger] m.items.contains_key(id) <==> is_fixed(id) || is_slot(id, m.slots)
    &&& forall|id: i32| m.items.contains_key(id) ==> (#[trigger] m.items[id]).id == id
}

/// The menu that a tray starts with.
pub open spec fn initial_menu() -> Menu {
    Menu {
        items: Map::empty().insert(ROOT_ID, standard_item(ROOT_ID, ""@, true, true)).insert(
            HEADER_ID,
            standard_item(HEADER_ID, "Plan: …"@, false, true),
        ).insert(THROTTLED_ID, standard_item(THROTTLED_ID, ""@, false, false)).insert(
            ERROR_ID,
            standard_item(ERROR_ID, ""@, false, false),
        ).insert(SEP_1_ID, separator_item(SEP_1_ID)).insert(
            REFRESH_ID,
            action_item(REFRESH_ID, "Refresh now"@, MenuCommand::Refresh),
        ).insert(SEP_2_ID, separator_item(SEP_2_ID)).insert(
            DASHBOARD_ID,
            action_item(DASHBOARD_ID, "Open dashboard"@, MenuCommand::OpenDashboard),
        ).insert(
            SET_KEY_ID,
            action_item(SET_KEY_ID, "Set API Key…"@, MenuCommand::SetApiKey),
        ).insert(SEP_3_ID, separator_item(SEP_3_ID)).insert(
            QUIT_ID,
            action_item(QUIT_ID, "Quit"@, MenuCommand::Quit),
        ),
        slots: 0,
        revision: 1,
    }
}

/// The items after one of them was given a label and a visibility.
pub open spec fn with_row(
    items: Map<i32, Item>,
    id: i32,
    label: Seq<char>,
    visible: bool,
) -> Map<i32, Item> {
    items.insert(
        id,
        Item {
            label,
            visible,
            ..items[id]
        },
    )
}

/// Whether an item reads and shows as given.
pub open spec fn reads(items: Map<i32, Item>, id: i32, label: Seq<char>, visible: bool) -> bool {
    items[id].label == label && items[id].visible == visible
}

/// The menu after one item was given a label and a visibility: unchanged where
/// it already had them, else with the next revision.
pub open spec fn put_row(m: Menu, id: i32, label: Seq<char>, visible: bool) -> Menu {
    if reads(m.items, id, label, visible) {
        m
    } else {
        Menu {
            items: with_row(m.items, id, label, visible),
            slots: m.slots,
            revision: next_revision(m.revision),
        }
    }
}

/// Full menu state.
#[derive(Debug)]
pub struct MenuInner {
    items: HashMap<i32, MenuItem>,
    root: Vec<i32>,
    revision: u32,
    max_window_slots: usize,
}

impl View for MenuInner {
    type V = Menu;

    closed spec fn view(&self) -> Menu {
        Menu {
            items: self.items@.map_values(|i: MenuItem| i@),
            slots: self.max_window_slots as nat,
            revision: self.revision,
        }
    }
}

impl MenuInner {
    /// The invariant that every operation keeps.
    pub closed spec fn wf(&self) -> bool {
        &&& menu_wf(self@)
        &&& self.root@ == root_children(self@.slots)
    }

    /// The menu that a tray starts with.
    pub fn new() -> (r: MenuInner)
        ensures
            r.wf(),
            r@ == initial_menu(),
    {
        let mut items: HashMap<i32, MenuItem> = HashMap::new();
        items.insert(ROOT_ID, MenuItem::standard(ROOT_ID, "", true, true));
        items.insert(HEADER_ID, MenuItem::standard(HEADER_ID, "Plan: …", false, true));
        items.insert(THROTTLED_ID, MenuItem::standard(THROTTLED_ID, "", false, false));
        items.insert(ERROR_ID, MenuItem::standard(ERROR_ID, "", false, false));
        items.insert(SEP_1_ID, MenuItem::separator(SEP_1_ID));
        items.insert(REFRESH_ID, MenuItem::action(REFRESH_ID, "Refresh now", MenuCommand::Refresh));
        items.insert(SEP_2_ID, MenuItem::separator(SEP_2_ID));
        items.insert(
            DASHBOARD_ID,
            MenuItem::action(DASHBOARD_ID, "Open dashboard", MenuCommand::OpenDashboard),
        );
        items.insert(
            SET_KEY_ID,
            MenuItem::action(SET_KEY_ID, "Set API Key…", MenuCommand::SetApiKey),
        );
        items.insert(SEP_3_ID, MenuItem::separator(SEP_3_ID));
        items.insert(QUIT_ID, MenuItem::action(QUIT_ID, "Quit", MenuCommand::Quit));
        let root: Vec<i32> = vec![
            HEADER_ID,
            THROTTLED_ID,
            ERROR_ID,
            SEP_1_ID,
            REFRESH_ID,
            SEP_2_ID,
            DASHBOARD_ID,
            SET_KEY_ID,
            SEP_3_ID,
            QUIT_ID,
        ];
        let r = MenuInner { items, root, revision: 1, max_window_slots: 0 };
        proof {
            assert(r.root@ =~= root_children(0));
            assert(r@.items =~= initial_menu().items);
            lemma_initial_wf();
        }
        r
    }
}

// ---------------------------------------------------------------------------
// Window rows
// ---------------------------------------------------------------------------

/// The characters of each text.
pub open spec fn texts(s: Seq<String>) -> Seq<Seq<char>> {
    s.map_values(|t: String| t@)
}

/// The characters of each optional text.
pub open spec fn opt_texts(s: Seq<Option<String>>) -> Seq<Option<Seq<char>>> {
    s.map_values(|t: Option<String>| opt_view(t))
}

/// The text of burn row `i`, if it has one.
pub open spec fn burn_at(burns: Seq<Option<Seq<char>>>, i: int) -> Option<Seq<char>> {
    if i < burns.len() {
        burns[i]
    } else {
        None
    }
}

/// The items with a hidden, empty row under `id`, unless there is an item.
pub open spec fn with_blank(items: Map<i32, Item>, id: i32) -> Map<i32, Item> {
    if items.contains_key(id) {
        items
    } else {
        items.insert(id, standard_item(id, Seq::empty(), false, false))
    }
}

/// The items with hidden, empty rows for the windows `from..to`.
pub open spec fn with_blank_slots(items: Map<i32, Item>, from: nat, to: nat) -> Map<i32, Item>
    decreases to,
{
    if to <= from {
        items
    } else {
        let i = to - 1;
        with_blank(
            with_blank(
                with_blank(with_blank_slots(items, from, i as nat), row_id(3 * i)),
                row_id(3 * i + 1),
            ),
            row_id(3 * i + 2),
        )
    }
}

/// The menu with room for `n` windows: unchanged where there is room already.
pub open spec fn grown(m: Menu, n: nat) -> Menu {
    if n > m.slots {
        Menu {
            items: with_blank_slots(m.items, m.slots, n),
            slots: n,
            revision: next_revision(m.revision),
        }
    } else {
        m
    }
}

/// The menu after the three rows of window `i` were set.
pub open spec fn with_window(
    m: Menu,
    labels: Seq<Seq<char>>,
    bars: Seq<Seq<char>>,
    burns: Seq<Option<Seq<char>>>,
    i: int,
) -> Menu {
    let m1 = put_row(m, row_id(3 * i), labels[i], true);
    let m2 = put_row(m1, row_id(3 * i + 1), bars[i], true);
    match burn_at(burns, i) {
        Some(t) => put_row(m2, row_id(3 * i + 2), t, true),
        None => put_row(m2, row_id(3 * i + 2), Seq::empty(), false),
    }
}

/// The menu after the rows of the first `n` windows were set.
pub open spec fn with_windows(
    m: Menu,
    labels: Seq<Seq<char>>,
    bars: Seq<Seq<char>>,
    burns: Seq<Option<Seq<char>>>,
    n: nat,
) -> Menu
    decreases n,
{
    if n == 0 {
        m
    } else {
        with_window(
            with_windows(m, labels, bars, burns, (n - 1) as nat),
            labels,
            bars,
            burns,
            n - 1,
        )
    }
}

/// The menu after the three rows of window `i` were emptied and hidden.
pub open spec fn without_window(m: Menu, i: int) -> Menu {
    let a = row_id(3 * i);
    let b = row_id(3 * i + 1);
    let c = row_id(3 * i + 2);
    let items1 = with_row(m.items, a, Seq::empty(), false);
    let items2 = with_row(items1, b, Seq::empty(), false);
    let items3 = with_row(items2, c, Seq::empty(), false);
    Menu {
        items: items3,
        slots: m.slots,
        revision: if reads(m.items, a, Seq::empty(), false) && reads(
            items1,
            b,
            Seq::empty(),
            false,
        ) && reads(items2, c, Seq::empty(), false) {
            m.revision
        } else {
            next_revision(m.revision)
        },
    }
}

/// The menu after the rows of the windows `from..to` were emptied and hidden.
pub open spec fn without_windows(m: Menu, from: nat, to: nat) -> Menu
    decreases to,
{
    if to <= from {
        m
    } else {
        without_window(without_windows(m, from, (to - 1) as nat), to - 1)
    }
}

/// The menu after its window rows were rebuilt: room for every window, a set
/// row for each, and the rest hidden.
pub open spec fn rebuilt(
    m: Menu,
    labels: Seq<Seq<char>>,
    bars: Seq<Seq<char>>,
    burns: Seq<Option<Seq<char>>>,
) -> Menu {
    let n = labels.len();
    let g = grown(m, n);
    without_windows(with_windows(g, labels, bars, burns, n), n, g.slots)
}

impl MenuInner {
    /// The current revision.
    pub fn revision(&self) -> (r: u32)
        ensures
            r == self@.revision,
    {
        self.revision
    }

    /// Raises the revision.
    pub fn bump_revision(&mut self)
        requires
            old(self).wf(),
        ensures
            final(self).wf(),
            final(self)@ == (Menu { revision: next_revision(old(self)@.revision), ..old(self)@ }),
    {
        self.revision = if self.revision == u32::MAX {
            0
        } else {
            self.revision + 1
        };
    }

    /// The children of `parent_id` in render order.
    pub fn children(&self, parent_id: i32) -> (r: &[i32])
        requires
            self.wf(),
        ensures
            r@ == children_of(self@.slots, parent_id),
    {
        if parent_id == ROOT_ID {
            self.root.as_slice()
        } else {
            let none: &[i32] = &[];
            assert(none@ =~= Seq::<i32>::empty());
            none
        }
    }

    /// The item with an id.
    pub fn item(&self, id: i32) -> (r: Option<&MenuItem>)
        ensures
            match r {
                Some(i) => self@.items.contains_key(id) && self@.items[id] == i@,
                None => !self@.items.contains_key(id),
            },
    {
        self.items.get(&id)
    }

    /// Gives an item a label and a visibility, and says whether that changed it.
    fn put(&mut self, id: i32, text: &str, visible: bool) -> (changed: bool)
        requires
            old(self).wf(),
            old(self)@.items.contains_key(id),
        ensures
            final(self).wf(),
            final(self)@.items == with_row(old(self)@.items, id, text@, visible),
            final(self)@.slots == old(self)@.slots,
            final(self)@.revision == old(self)@.revision,
            changed == !reads(old(self)@.items, id, text@, visible),
            !changed ==> final(self)@ == old(self)@,
    {
        let item = match self.items.get(&id) {
            Some(i) => i.clone(),
            None => return false,
        };
        if same(item.label.as_str(), text) && item.visible == visible {
            assert(self@.items =~= with_row(self@.items, id, text@, visible));
            return false;
        }
        let next = MenuItem {
            id: item.id,
            label: text.to_owned(),
            enabled: item.enabled,
            visible,
            separator: item.separator,
            action: item.action,
        };
        let ghost after = next@;
        self.items.insert(id, next);
        assert(self@.items =~= old(self)@.items.insert(id, after));
        true
    }

    /// Gives an item a label and a visibility, raising the revision if that changed it.
    fn put_and_bump(&mut self, id: i32, text: &str, visible: bool)
        requires
            old(self).wf(),
            old(self)@.items.contains_key(id),
        ensures
            final(self).wf(),
            final(self)@ == put_row(old(self)@, id, text@, visible),
    {
        if self.put(id, text, visible) {
            self.bump_revision();
        }
    }

    /// Sets the header's text.
    pub fn set_header(&mut self, text: &str)
        requires
            old(self).wf(),
        ensures
            final(self).wf(),
            final(self)@ == put_row(
                old(self)@,
                HEADER_ID,
                text@,
                old(self)@.items[HEADER_ID].visible,
            ),
    {
        proof {
            lemma_fixed_tail();
            assert(is_fixed(HEADER_ID));
            assert(self@.items.contains_key(HEADER_ID));
        }
        let visible: bool = match self.items.get(&HEADER_ID) {
            Some(i) => i.visible,
            None => true,
        };
        self.put_and_bump(HEADER_ID, text, visible);
    }

    /// Sets the throttled row's text and visibility.
    pub fn set_throttled(&mut self, text: &str, visible: bool)
        requires
            old(self).wf(),
        ensures
            final(self).wf(),
            final(self)@ == put_row(old(self)@, THROTTLED_ID, text@, visible),
    {
        proof {
            lemma_fixed_tail();
            assert(is_fixed(THROTTLED_ID));
        }
        self.put_and_bump(THROTTLED_ID, text, visible);
    }

    /// Sets the error row's text and visibility.
    pub fn set_error(&mut self, text: &str, visible: bool)
        requires
            old(self).wf(),
        ensures
            final(self).wf(),
            final(self)@ == put_row(old(self)@, ERROR_ID, text@, visible),
    {
        proof {
            lemma_fixed_tail();
            assert(is_fixed(ERROR_ID));
        }
        self.put_and_bump(ERROR_ID, text, visible);
    }

    /// Adds a hidden, empty row under `id`, unless there is an item.
    fn add_blank(&mut self, id: i32)
        ensures
            final(self)@.items == with_blank(old(self)@.items, id),
            final(self)@.slots == old(self)@.slots,
            final(self)@.revision == old(self)@.revision,
            final(self).root@ == old(self).root@,
    {
        if !self.items.contains_key(&id) {
            self.items.insert(id, MenuItem::standard(id, "", false, false));
            proof {
                reveal_strlit("");
                assert(""@ =~= Seq::<char>::empty());
                assert(self@.items =~= with_blank(old(self)@.items, id));
            }
        }
    }

    /// Lists the rows of `total` windows under the root, between the header and
    /// the throttled row.
    fn extend_root_children_with_new_slots(&mut self, total: usize)
        requires
            total <= MAX_SLOTS,
        ensures
            final(self).root@ == root_children(total as nat),
            final(self)@ == old(self)@,
    {
        let mut root: Vec<i32> = Vec::new();
        root.push(HEADER_ID);
        let mut idx: usize = 0;
        while idx < total
            invariant
                idx <= total <= MAX_SLOTS,
                root@ =~= seq![HEADER_ID] + slot_ids(idx as nat),
            decreases total - idx,
        {
            root.push(window_id(idx));
            root.push(bar_id(idx));
            root.push(burn_id(idx));
            idx += 1;
        }
        root.push(THROTTLED_ID);
        root.push(ERROR_ID);
        root.push(SEP_1_ID);
        root.push(REFRESH_ID);
        root.push(SEP_2_ID);
        root.push(DASHBOARD_ID);
        root.push(SET_KEY_ID);
        root.push(SEP_3_ID);
        root.push(QUIT_ID);
        assert(root@ =~= root_children(total as nat));
        self.root = root;
    }

    /// Makes room for `n` windows.
    fn grow(&mut self, n: usize)
        requires
            old(self).wf(),
            n <= MAX_SLOTS,
        ensures
            final(self).wf(),
            final(self)@ == grown(old(self)@, n as nat),
    {
        let from: usize = self.max_window_slots;
        if n <= from {
            return;
        }
        let mut idx: usize = from;
        while idx < n
            invariant
                from <= idx <= n <= MAX_SLOTS,
                self@.items == with_blank_slots(old(self)@.items, from as nat, idx as nat),
                self@.slots == old(self)@.slots,
                self@.revision == old(self)@.revision,
            decreases n - idx,
        {
            self.add_blank(window_id(idx));
            self.add_blank(bar_id(idx));
            self.add_blank(burn_id(idx));
            idx += 1;
        }
        self.max_window_slots = n;
        self.extend_root_children_with_new_slots(n);
        proof {
            lemma_blank_slots(old(self)@.items, from as nat, n as nat);
            lemma_fixed_tail();
        }
        self.bump_revision();
    }

    /// Rebuilds the window rows: `labels` are the rows of the windows in order,
    /// `bars` their bars, `burns` their burn rows where they have one.
    pub fn rebuild_window_rows(
        &mut self,
        labels: &[String],
        bars: &[String],
        burns: &[Option<String>],
    )
        requires
            old(self).wf(),
            labels.len() <= bars.len(),
            labels.len() <= MAX_SLOTS,
        ensures
            final(self).wf(),
            final(self)@ == rebuilt(old(self)@, texts(labels@), texts(bars@), opt_texts(burns@)),
    {
        let n: usize = labels.len();
        self.grow(n);
        let ghost g = self@;
        let mut idx: usize = 0;
        while idx < n
            invariant
                idx <= n == labels.len(),
                n <= bars.len(),
                n <= g.slots <= MAX_SLOTS,
                self.wf(),
                self@ == with_windows(
                    g,
                    texts(labels@),
                    texts(bars@),
                    opt_texts(burns@),
                    idx as nat,
                ),
                self@.slots == g.slots,
            decreases n - idx,
        {
            assert(self@.items.contains_key(row_id(3 * idx)));
            self.put_and_bump(window_id(idx), labels[idx].as_str(), true);
            assert(self@.items.contains_key(row_id(3 * idx + 1)));
            self.put_and_bump(bar_id(idx), bars[idx].as_str(), true);
            assert(self@.items.contains_key(row_id(3 * idx + 2)));
            let text: Option<&String> = if idx < burns.len() {
                burns[idx].as_ref()
            } else {
                None
            };
            match text {
                Some(t) => self.put_and_bump(burn_id(idx), t.as_str(), true),
                None => {
                    proof {
                        reveal_strlit("");
                        assert(""@ =~= Seq::<char>::empty());
                    }
                    self.put_and_bump(burn_id(idx), "", false)
                },
            }
            idx += 1;
        }
        let ghost w = self@;
        let mut idx: usize = n;
        let end: usize = self.max_window_slots;
        while idx < end
            invariant
                n <= idx <= end,
                end == g.slots <= MAX_SLOTS,
                self.wf(),
                self@ == without_windows(w, n as nat, idx as nat),
                self@.slots == g.slots,
            decreases end - idx,
        {
            proof {
                reveal_strlit("");
                assert(""@ =~= Seq::<char>::empty());
            }
            assert(self@.items.contains_key(row_id(3 * idx)));
            let a: bool = self.put(window_id(idx), "", false);
            assert(self@.items.contains_key(row_id(3 * idx + 1)));
            let b: bool = self.put(bar_id(idx), "", false);
            assert(self@.items.contains_key(row_id(3 * idx + 2)));
            let c: bool = self.put(burn_id(idx), "", false);
            if a || b || c {
                self.bump_revision();
            }
            idx += 1;
        }
    }
}

// ---------------------------------------------------------------------------
// Installing a freshly built menu
// ---------------------------------------------------------------------------

/// The live menu after a freshly built one was installed into it: the new
/// rows, with hidden ones for slots that only the old menu had. The revision
/// moves on exactly where that changes anything.
pub open spec fn installed(live: Menu, fresh: Menu) -> Menu {
    let items = with_blank_slots(fresh.items, fresh.slots, live.slots);
    let slots = if fresh.slots > live.slots {
        fresh.slots
    } else {
        live.slots
    };
    if items == live.items && slots == live.slots {
        live
    } else {
        Menu { items, slots, revision: next_revision(live.revision) }
    }
}

fn same_item(a: &MenuItem, b: &MenuItem) -> (r: bool)
    ensures
        r == (a@ == b@),
{
    a.id == b.id && same(a.label.as_str(), b.label.as_str()) && a.enabled == b.enabled && a.visible
        == b.visible && a.separator == b.separator && a.action == b.action
}

impl MenuInner {
    /// Whether the item `id` is the same in both menus.
    fn same_at(&self, other: &MenuInner, id: i32) -> (r: bool)
        requires
            self@.items.contains_key(id),
            other@.items.contains_key(id),
        ensures
            r == (self@.items[id] == other@.items[id]),
    {
        match (self.items.get(&id), other.items.get(&id)) {
            (Some(a), Some(b)) => same_item(a, b),
            _ => false,
        }
    }

    /// Whether both menus hold the same items.
    fn same_content(&self, other: &MenuInner) -> (r: bool)
        requires
            self.wf(),
            other.wf(),
        ensures
            r == (self@.items == other@.items && self@.slots == other@.slots),
    {
        if self.max_window_slots != other.max_window_slots {
            return false;
        }
        proof {
            lemma_root_children(self@.slots);
            lemma_fixed_tail();
            assert(is_fixed(ROOT_ID));
        }
        let ghost ids = root_children(self@.slots);
        if !self.same_at(other, ROOT_ID) {
            return false;
        }
        let mut i: usize = 0;
        while i < self.root.len()
            invariant
                self.wf(),
                other.wf(),
                self@.slots == other@.slots,
                self.root@ == ids,
                ids == root_children(self@.slots),
                forall|j: int| 0 <= j < ids.len() ==> self@.items.contains_key(#[trigger] ids[j]),
                i <= ids.len(),
                forall|j: int|
                    0 <= j < i ==> self@.items[#[trigger] ids[j]] == other@.items[ids[j]],
            decreases ids.len() - i,
        {
            let id: i32 = self.root[i];
            assert(self@.items.contains_key(ids[i as int]));
            if !self.same_at(other, id) {
                return false;
            }
            i += 1;
        }
        proof {
            assert forall|id: i32| self@.items.contains_key(id) implies self@.items[id]
                == other@.items[id] by {
                if id != ROOT_ID {
                    lemma_root_children_cover(self@.slots, id);
                    let j = choose|j: int| 0 <= j < ids.len() && #[trigger] ids[j] == id;
                    assert(self@.items[ids[j]] == other@.items[ids[j]]);
                }
            }
            assert(self@.items =~= other@.items);
        }
        true
    }

    /// Installs a freshly built menu.
    pub fn install(&mut self, fresh: MenuInner)
        requires
            old(self).wf(),
            fresh.wf(),
        ensures
            final(self).wf(),
            final(self)@ == installed(old(self)@, fresh@),
    {
        let mut next = fresh;
        next.grow(self.max_window_slots);
        if self.same_content(&next) {
            return;
        }
        self.items = next.items;
        self.root = next.root;
        self.max_window_slots = next.max_window_slots;
        self.bump_revision();
    }
}

/// Every item but the root stands under the root.
proof fn lemma_root_children_cover(slots: nat, id: i32)
    requires
        slots <= MAX_SLOTS,
        id != ROOT_ID,
        is_fixed(id) || is_slot(id, slots),
    ensures
        exists|j: int| 0 <= j < root_children(slots).len() && #[trigger] root_children(slots)[j] == id,
{
    lemma_root_children(slots);
    let c = root_children(slots);
    if is_slot(id, slots) {
        if id < 199 {
            assert(c[id - 99] == id);
        } else {
            assert(c[id - 207] == id);
        }
    } else if id == HEADER_ID {
        assert(c[0] == id);
    } else {
        let t = fixed_tail();
        let k = choose|k: int| 0 <= k < t.len() && t[k] == id;
        assert(c[k + 1 + 3 * slots] == t[k]);
    }
}

/// Blank slots add exactly the ids of their rows, and every item keeps its id.
proof fn lemma_blank_slots(items: Map<i32, Item>, from: nat, to: nat)
    requires
        from <= to <= MAX_SLOTS,
    ensures
        forall|id: i32| #[trigger]
            with_blank_slots(items, from, to).contains_key(id) <==> items.contains_key(id)
                || in_slots(id, from, to),
        forall|id: i32|
            items.contains_key(id) ==> #[trigger] with_blank_slots(items, from, to)[id]
                == items[id],
        forall|id: i32|
            !items.contains_key(id) && in_slots(id, from, to)
                ==> #[trigger] with_blank_slots(items, from, to)[id] == standard_item(
                id,
                Seq::empty(),
                false,
                false,
            ),
    decreases to,
{
    if to > from {
        lemma_blank_slots(items, from, (to - 1) as nat);
    }
}

proof fn lemma_fixed_tail()
    ensures
        forall|id: i32| #[trigger]
            is_fixed(id) <==> (id == ROOT_ID || id == HEADER_ID || id == THROTTLED_ID || id
                == ERROR_ID || (300 <= id <= 306)),
{
    let t = fixed_tail();
    assert(t[0] == THROTTLED_ID && t[1] == ERROR_ID && t[2] == 300 && t[3] == 301 && t[4] == 302
        && t[5] == 303 && t[6] == 304 && t[7] == 305 && t[8] == 306);
}

/// The first menu is well formed.
pub proof fn lemma_initial_wf()
    ensures
        menu_wf(initial_menu()),
{
    lemma_fixed_tail();
}

// ---------------------------------------------------------------------------
// Wire form
// ---------------------------------------------------------------------------

/// The value of an item property.
#[derive(Debug, PartialEq, Eq)]
pub enum PropValue {
    Text(String),
    Flag(bool),
}

/// The value of an item property as a mathematical value.
pub enum Prop {
    Text(Seq<char>),
    Flag(bool),
}

impl View for PropValue {
    type V = Prop;

    open spec fn view(&self) -> Prop {
        match *self {
            PropValue::Text(t) => Prop::Text(t@),
            PropValue::Flag(b) => Prop::Flag(b),
        }
    }
}

/// Named properties as mathematical values.
pub open spec fn props_view(props: Seq<(&'static str, PropValue)>) -> Seq<(Seq<char>, Prop)> {
    props.map_values(|p: (&'static str, PropValue)| (p.0@, p.1@))
}

/// The wire properties of an item. Separators carry no label and cannot be
/// clicked; rows never show a submenu arrow.
pub open spec fn item_props(item: Item) -> Seq<(Seq<char>, Prop)> {
    if item.separator {
        seq![
            ("type"@, Prop::Text("separator"@)),
            ("visible"@, Prop::Flag(item.visible)),
            ("enabled"@, Prop::Flag(false)),
        ]
    } else {
        seq![
            ("type"@, Prop::Text("standard"@)),
            ("label"@, Prop::Text(item.label)),
            ("enabled"@, Prop::Flag(item.enabled)),
            ("visible"@, Prop::Flag(item.visible)),
            ("children-display"@, Prop::Text("never"@)),
        ]
    }
}

/// The wire properties of an item, by name.
pub fn build_properties(item: &MenuItem) -> (r: Vec<(&'static str, PropValue)>)
    ensures
        props_view(r@) == item_props(item@),
{
    let mut props: Vec<(&'static str, PropValue)> = Vec::new();
    if item.separator {
        props.push(("type", PropValue::Text("separator".to_owned())));
        props.push(("visible", PropValue::Flag(item.visible)));
        props.push(("enabled", PropValue::Flag(false)));
    } else {
        props.push(("type", PropValue::Text("standard".to_owned())));
        props.push(("label", PropValue::Text(item.label.clone())));
        props.push(("enabled", PropValue::Flag(item.enabled)));
        props.push(("visible", PropValue::Flag(item.visible)));
        props.push(("children-display", PropValue::Text("never".to_owned())));
    }
    assert(props_view(props@) =~= item_props(item@));
    props
}

/// One item of a layout: its id, its properties and its children.
#[derive(Debug)]
pub struct ItemLayout {
    pub id: i32,
    pub props: Vec<(&'static str, PropValue)>,
    pub children: Vec<ItemLayout>,
}

/// A layout answer: the revision and the item it was asked for.
pub type ItemLayoutResponse = (u32, ItemLayout);

/// Whether `r` lays out the item `id` of `m` without children.
pub open spec fn lays_out_leaf(r: ItemLayout, m: Menu, id: i32) -> bool {
    &&& r.id == id
    &&& props_view(r.props@) == item_props(m.items[id])
    &&& r.children@.len() == 0
}

/// Whether `r` lays out the children of `parent` in render order. Only the
/// root has children, so the children have none.
pub open spec fn lays_out_children(r: Seq<ItemLayout>, m: Menu, parent: i32) -> bool {
    let ids = children_of(m.slots, parent);
    &&& r.len() == ids.len()
    &&& forall|i: int| 0 <= i < ids.len() ==> lays_out_leaf(#[trigger] r[i], m, ids[i])
}

/// The layouts of the children of `parent_id`; with `recurse`, theirs too.
pub fn build_child_variants(state: &MenuInner, parent_id: i32, recurse: bool) -> (r: Vec<
    ItemLayout,
>)
    requires
        state.wf(),
    ensures
        lays_out_children(r@, state@, parent_id),
    decreases (if parent_id == ROOT_ID {
        1int
    } else {
        0int
    }),
{
    let mut out: Vec<ItemLayout> = Vec::new();
    let kids = state.children(parent_id);
    let ghost ids = children_of(state@.slots, parent_id);
    proof {
        lemma_root_children(state@.slots);
        lemma_fixed_tail();
    }
    let mut i: usize = 0;
    while i < kids.len()
        invariant
            state.wf(),
            menu_wf(state@),
            kids@ == ids,
            ids == children_of(state@.slots, parent_id),
            i <= kids.len(),
            parent_id != ROOT_ID ==> ids.len() == 0,
            forall|j: int|
                0 <= j < ids.len() ==> (#[trigger] ids[j]) != ROOT_ID && state@.items.contains_key(
                    ids[j],
                ),
            out@.len() == i,
            forall|j: int| 0 <= j < i ==> lays_out_leaf(#[trigger] out@[j], state@, ids[j]),
        decreases kids.len() - i,
    {
        let cid: i32 = kids[i];
        assert(ids[i as int] != ROOT_ID && state@.items.contains_key(ids[i as int]));
        let item = match state.item(cid) {
            Some(item) => item,
            None => return out,
        };
        let children: Vec<ItemLayout> = if recurse {
            build_child_variants(state, cid, true)
        } else {
            Vec::new()
        };
        assert(state@.items[cid].id == cid);
        out.push(ItemLayout { id: item.id, props: build_properties(item), children });
        i += 1;
    }
    out
}

/// The layout answer for the subtree under `parent_id`; an unknown item reads
/// as an empty row.
pub fn build_layout_response(state: &MenuInner, parent_id: i32, recurse: bool) -> (r:
    ItemLayoutResponse)
    requires
        state.wf(),
    ensures
        r.0 == state@.revision,
        r.1.id == parent_id,
        props_view(r.1.props@) == item_props(
            if state@.items.contains_key(parent_id) {
                state@.items[parent_id]
            } else {
                standard_item(parent_id, ""@, true, true)
            },
        ),
        lays_out_children(r.1.children@, state@, parent_id),
{
    let item = match state.item(parent_id) {
        Some(i) => i.clone(),
        None => MenuItem::standard(parent_id, "", true, true),
    };
    let props = build_properties(&item);
    let children = build_child_variants(state, parent_id, recurse);
    (state.revision(), ItemLayout { id: item.id, props, children })
}

proof fn lemma_slot_ids(n: nat)
    requires
        n <= MAX_SLOTS,
    ensures
        slot_ids(n).len() == 3 * n,
        forall|i: int| 0 <= i < 3 * n ==> #[trigger] slot_ids(n)[i] == row_id(i),
    decreases n,
{
    if n > 0 {
        lemma_slot_ids((n - 1) as nat);
    }
}

proof fn lemma_root_children(slots: nat)
    requires
        slots <= MAX_SLOTS,
    ensures
        root_children(slots).len() == 10 + 3 * slots,
        root_children(slots)[0] == HEADER_ID,
        forall|i: int| 1 <= i <= 3 * slots ==> #[trigger] root_children(slots)[i] == row_id(i - 1),
        forall|i: int|
            3 * slots < i < 10 + 3 * slots ==> #[trigger] root_children(slots)[i] == fixed_tail()[i
                - 1 - 3 * slots],
        forall|i: int|
            0 <= i < root_children(slots).len() ==> (#[trigger] root_children(slots)[i]) != ROOT_ID
                && (is_fixed(root_children(slots)[i]) || is_slot(root_children(slots)[i], slots)),
{
    lemma_slot_ids(slots);
    lemma_fixed_tail();
    let c = root_children(slots);
    let t = fixed_tail();
    assert forall|i: int| 0 <= i < c.len() implies (#[trigger] c[i]) != ROOT_ID && (is_fixed(c[i])
        || is_slot(c[i], slots)) by {
        if 1 <= i <= 3 * slots {
            assert(c[i] == slot_ids(slots)[i - 1]);
        } else if i > 3 * slots {
            let k = i - 1 - 3 * slots;
            assert(c[i] == t[k]);
            assert(t.contains(t[k]));
        }
    }
    assert forall|i: int| 1 <= i <= 3 * slots implies #[trigger] c[i] == row_id(i - 1) by {
        assert(c[i] == slot_ids(slots)[i - 1]);
    }
}

// ---------------------------------------------------------------------------
// Laws
// ---------------------------------------------------------------------------

/// Whether the rows of window `i` read as given.
pub open spec fn window_reads(
    items: Map<i32, Item>,
    labels: Seq<Seq<char>>,
    bars: Seq<Seq<char>>,
    burns: Seq<Option<Seq<char>>>,
    i: int,
) -> bool {
    &&& reads(items, row_id(3 * i), labels[i], true)
    &&& reads(items, row_id(3 * i + 1), bars[i], true)
    &&& match burn_at(burns, i) {
        Some(t) => reads(items, row_id(3 * i + 2), t, true),
        None => reads(items, row_id(3 * i + 2), Seq::empty(), false),
    }
}

/// Whether the rows of window `i` are empty and hidden.
pub open spec fn window_hidden(items: Map<i32, Item>, i: int) -> bool {
    &&& reads(items, row_id(3 * i), Seq::empty(), false)
    &&& reads(items, row_id(3 * i + 1), Seq::empty(), false)
    &&& reads(items, row_id(3 * i + 2), Seq::empty(), false)
}

proof fn lemma_with_windows(
    m: Menu,
    labels: Seq<Seq<char>>,
    bars: Seq<Seq<char>>,
    burns: Seq<Option<Seq<char>>>,
    n: nat,
)
    requires
        menu_wf(m),
        n <= labels.len() <= bars.len(),
        n <= m.slots,
    ensures
        ({
            let r = with_windows(m, labels, bars, burns, n);
            &&& menu_wf(r)
            &&& r.slots == m.slots
            &&& forall|i: int|
                0 <= i < n ==> #[trigger] window_reads(r.items, labels, bars, burns, i)
            &&& forall|id: i32|
                !in_slots(id, 0, n) ==> #[trigger] r.items[id] == m.items[id]
        }),
    decreases n,
{
    if n > 0 {
        let k = (n - 1) as nat;
        lemma_with_windows(m, labels, bars, burns, k);
        let r = with_windows(m, labels, bars, burns, n);
        let p = with_windows(m, labels, bars, burns, k);
        assert(p.items.contains_key(row_id(3 * k as int)));
        assert(p.items.contains_key(row_id(3 * k as int + 1)));
        assert(p.items.contains_key(row_id(3 * k as int + 2)));
        assert forall|i: int| 0 <= i < n implies #[trigger] window_reads(
            r.items,
            labels,
            bars,
            burns,
            i,
        ) by {
            if i < k {
                assert(window_reads(p.items, labels, bars, burns, i));
            }
        }
    }
}

proof fn lemma_without_windows(m: Menu, from: nat, to: nat)
    requires
        menu_wf(m),
        from <= to <= m.slots,
    ensures
        ({
            let r = without_windows(m, from, to);
            &&& menu_wf(r)
            &&& r.slots == m.slots
            &&& forall|i: int| from <= i < to ==> #[trigger] window_hidden(r.items, i)
            &&& forall|id: i32|
                !in_slots(id, from, to) ==> #[trigger] r.items[id] == m.items[id]
        }),
    decreases to,
{
    if to > from {
        let k = (to - 1) as nat;
        lemma_without_windows(m, from, k);
        let r = without_windows(m, from, to);
        let p = without_windows(m, from, k);
        assert(p.items.contains_key(row_id(3 * k as int)));
        assert(p.items.contains_key(row_id(3 * k as int + 1)));
        assert(p.items.contains_key(row_id(3 * k as int + 2)));
        assert forall|i: int| from <= i < to implies #[trigger] window_hidden(r.items, i) by {
            if i < k {
                assert(window_hidden(p.items, i));
            }
        }
    }
}

proof fn lemma_grown(m: Menu, n: nat)
    requires
        menu_wf(m),
        n <= MAX_SLOTS,
    ensures
        menu_wf(grown(m, n)),
        n <= grown(m, n).slots,
        forall|id: i32|
            m.items.contains_key(id) ==> #[trigger] grown(m, n).items[id] == m.items[id],
{
    if n > m.slots {
        lemma_blank_slots(m.items, m.slots, n);
        lemma_fixed_tail();
    }
}

/// Rebuilding the window rows shows exactly the given windows, in order, hides
/// every other slot, never takes a slot away, and leaves every other item as it
/// was: the root, the header, the throttled and the error row, the separators and
/// the actions.
pub proof fn law_rebuild_shows_exactly_the_windows(
    m: Menu,
    labels: Seq<Seq<char>>,
    bars: Seq<Seq<char>>,
    burns: Seq<Option<Seq<char>>>,
)
    requires
        menu_wf(m),
        labels.len() <= bars.len(),
        labels.len() <= MAX_SLOTS,
    ensures
        ({
            let r = rebuilt(m, labels, bars, burns);
            &&& menu_wf(r)
            &&& r.slots == (if labels.len() > m.slots {
                labels.len()
            } else {
                m.slots
            })
            &&& forall|i: int|
                0 <= i < labels.len() ==> #[trigger] window_reads(r.items, labels, bars, burns, i)
            &&& forall|i: int|
                labels.len() <= i < r.slots ==> #[trigger] window_hidden(r.items, i)
            &&& forall|id: i32| is_fixed(id) ==> #[trigger] r.items[id] == m.items[id]
        }),
{
    let n = labels.len();
    let g = grown(m, n);
    lemma_grown(m, n);
    lemma_with_windows(g, labels, bars, burns, n);
    let w = with_windows(g, labels, bars, burns, n);
    lemma_without_windows(w, n, g.slots);
    lemma_fixed_tail();
    let r = rebuilt(m, labels, bars, burns);
    assert forall|i: int| 0 <= i < n implies #[trigger] window_reads(
        r.items,
        labels,
        bars,
        burns,
        i,
    ) by {
        assert(window_reads(w.items, labels, bars, burns, i));
    }
}

/// Showing the same windows a second time changes nothing, not even the revision.
pub proof fn law_rebuild_is_idempotent(
    m: Menu,
    labels: Seq<Seq<char>>,
    bars: Seq<Seq<char>>,
    burns: Seq<Option<Seq<char>>>,
)
    requires
        menu_wf(m),
        labels.len() <= bars.len(),
        labels.len() <= MAX_SLOTS,
    ensures
        rebuilt(rebuilt(m, labels, bars, burns), labels, bars, burns) == rebuilt(
            m,
            labels,
            bars,
            burns,
        ),
{
    law_rebuild_shows_exactly_the_windows(m, labels, bars, burns);
    let r = rebuilt(m, labels, bars, burns);
    lemma_windows_unchanged(r, labels, bars, burns, labels.len());
    lemma_hidden_unchanged(r, labels.len(), r.slots);
}

proof fn lemma_windows_unchanged(
    m: Menu,
    labels: Seq<Seq<char>>,
    bars: Seq<Seq<char>>,
    burns: Seq<Option<Seq<char>>>,
    n: nat,
)
    requires
        n <= labels.len(),
        forall|i: int| 0 <= i < n ==> #[trigger] window_reads(m.items, labels, bars, burns, i),
    ensures
        with_windows(m, labels, bars, burns, n) == m,
    decreases n,
{
    if n > 0 {
        lemma_windows_unchanged(m, labels, bars, burns, (n - 1) as nat);
        assert(window_reads(m.items, labels, bars, burns, n - 1));
    }
}

proof fn lemma_hidden_unchanged(m: Menu, from: nat, to: nat)
    requires
        menu_wf(m),
        to <= m.slots,
        forall|i: int| from <= i < to ==> #[trigger] window_hidden(m.items, i),
    ensures
        without_windows(m, from, to) == m,
    decreases to,
{
    if to > from {
        lemma_hidden_unchanged(m, from, (to - 1) as nat);
        let i = to - 1;
        assert(window_hidden(m.items, i));
        assert(m.items.contains_key(row_id(3 * i)));
        assert(m.items.contains_key(row_id(3 * i + 1)));
        assert(m.items.contains_key(row_id(3 * i + 2)));
        assert(without_window(m, i).items =~= m.items);
    }
}

/// However many windows there are, no id stands twice under the root, and the rows
/// of the windows stand between the header and the throttled row.
pub proof fn law_root_children_are_distinct(slots: nat)
    requires
        slots <= MAX_SLOTS,
    ensures
        root_children(slots).no_duplicates(),
        root_children(slots).len() == 10 + 3 * slots,
        root_children(slots)[0] == HEADER_ID,
        root_children(slots)[3 * slots as int + 1] == THROTTLED_ID,
{
    lemma_root_children(slots);
    let c = root_children(slots);
    let t = fixed_tail();
    assert(t[0] == 200 && t[1] == 210 && t[2] == 300 && t[3] == 301 && t[4] == 302 && t[5] == 303
        && t[6] == 304 && t[7] == 305 && t[8] == 306);
    assert forall|i: int, j: int| 0 <= i < c.len() && 0 <= j < c.len() && i != j implies c[i]
        != c[j] by {
        let a = c[i];
        let b = c[j];
        if i > 3 * slots {
            assert(a == t[i - 1 - 3 * slots]);
        }
        if j > 3 * slots {
            assert(b == t[j - 1 - 3 * slots]);
        }
    }
}

/// The revision after `k` changes.
pub open spec fn advanced(r: u32, k: int) -> int {
    (r + k) % 0x1_0000_0000
}

proof fn lemma_advanced(r: u32, mid: u32, j: int, k: int)
    requires
        mid == advanced(r, j),
    ensures
        advanced(mid, k) == advanced(r, j + k),
{
}

/// How often setting one row raises the revision.
proof fn lemma_row_revision(m: Menu, id: i32, label: Seq<char>, visible: bool) -> (k: int)
    requires
        m.items.contains_key(id),
    ensures
        0 <= k <= 1,
        put_row(m, id, label, visible).revision == advanced(m.revision, k),
        k == 0 ==> put_row(m, id, label, visible) == m,
        k == 1 ==> put_row(m, id, label, visible).items[id] != m.items[id],
        put_row(m, id, label, visible).items.dom() == m.items.dom(),
        forall|other: i32|
            other != id ==> #[trigger] put_row(m, id, label, visible).items[other]
                == m.items[other],
{
    if reads(m.items, id, label, visible) {
        0
    } else {
        assert(put_row(m, id, label, visible).items.dom() =~= m.items.dom());
        1
    }
}

/// How often setting the rows of window `i` raises the revision, and a row that
/// changed where it does.
proof fn lemma_window_revision(
    m: Menu,
    labels: Seq<Seq<char>>,
    bars: Seq<Seq<char>>,
    burns: Seq<Option<Seq<char>>>,
    i: nat,
) -> (r: (int, i32))
    requires
        i < MAX_SLOTS,
        m.items.contains_key(row_id(3 * i as int)),
        m.items.contains_key(row_id(3 * i as int + 1)),
        m.items.contains_key(row_id(3 * i as int + 2)),
    ensures
        0 <= r.0 <= 3,
        with_window(m, labels, bars, burns, i as int).revision == advanced(m.revision, r.0),
        r.0 == 0 ==> with_window(m, labels, bars, burns, i as int) == m,
        r.0 > 0 ==> in_slots(r.1, i, i + 1) && m.items.contains_key(r.1) && with_window(
            m,
            labels,
            bars,
            burns,
            i as int,
        ).items[r.1] != m.items[r.1],
{
    let a = row_id(3 * i as int);
    let b = row_id(3 * i as int + 1);
    let c = row_id(3 * i as int + 2);
    assert(a != b && b != c && a != c);
    let m1 = put_row(m, a, labels[i as int], true);
    let ka = lemma_row_revision(m, a, labels[i as int], true);
    let m2 = put_row(m1, b, bars[i as int], true);
    let kb = lemma_row_revision(m1, b, bars[i as int], true);
    let (text, visible) = match burn_at(burns, i as int) {
        Some(t) => (t, true),
        None => (Seq::<char>::empty(), false),
    };
    let m3 = put_row(m2, c, text, visible);
    let kc = lemma_row_revision(m2, c, text, visible);
    assert(m3 == with_window(m, labels, bars, burns, i as int));
    lemma_advanced(m.revision, m1.revision, ka, kb);
    lemma_advanced(m.revision, m2.revision, ka + kb, kc);
    let k = ka + kb + kc;
    if ka > 0 {
        (k, a)
    } else if kb > 0 {
        (k, b)
    } else {
        (k, c)
    }
}

/// How often setting the first `n` windows raises the revision, and an item that
/// changed where it does.
#[verifier::spinoff_prover]
#[verifier::rlimit(40)]
proof fn lemma_windows_revision(
    m: Menu,
    labels: Seq<Seq<char>>,
    bars: Seq<Seq<char>>,
    burns: Seq<Option<Seq<char>>>,
    n: nat,
) -> (r: (int, i32))
    requires
        menu_wf(m),
        n <= labels.len() <= bars.len(),
        n <= m.slots,
    ensures
        0 <= r.0 <= 3 * n,
        with_windows(m, labels, bars, burns, n).revision == advanced(m.revision, r.0),
        r.0 == 0 ==> with_windows(m, labels, bars, burns, n) == m,
        r.0 > 0 ==> in_slots(r.1, 0, n) && m.items.contains_key(r.1) && with_windows(
            m,
            labels,
            bars,
            burns,
            n,
        ).items[r.1] != m.items[r.1],
    decreases n,
{
    if n == 0 {
        return (0, 0);
    }
    let k = (n - 1) as nat;
    let before = lemma_windows_revision(m, labels, bars, burns, k);
    lemma_with_windows(m, labels, bars, burns, k);
    let p = with_windows(m, labels, bars, burns, k);
    let q = with_windows(m, labels, bars, burns, n);
    assert(p.items.contains_key(row_id(3 * k as int)));
    assert(p.items.contains_key(row_id(3 * k as int + 1)));
    assert(p.items.contains_key(row_id(3 * k as int + 2)));
    let last = lemma_window_revision(p, labels, bars, burns, k);
    assert(q == with_window(p, labels, bars, burns, k as int));
    lemma_advanced(m.revision, p.revision, before.0, last.0);
    if last.0 > 0 {
        assert(!in_slots(last.1, 0, k));
        assert(p.items[last.1] == m.items[last.1]);
        assert(m.items.contains_key(last.1));
        (before.0 + last.0, last.1)
    } else {
        before
    }
}

/// How often hiding the windows `from..to` raises the revision, and an item that
/// changed where it does.
#[verifier::spinoff_prover]
#[verifier::rlimit(40)]
proof fn lemma_hidden_revision(m: Menu, from: nat, to: nat) -> (r: (int, i32))
    requires
        menu_wf(m),
        from <= to <= m.slots,
    ensures
        0 <= r.0 <= to - from,
        without_windows(m, from, to).revision == advanced(m.revision, r.0),
        r.0 == 0 ==> without_windows(m, from, to) == m,
        r.0 > 0 ==> in_slots(r.1, from, to) && m.items.contains_key(r.1) && without_windows(
            m,
            from,
            to,
        ).items[r.1] != m.items[r.1],
    decreases to,
{
    if to <= from {
        return (0, 0);
    }
    let k = (to - 1) as nat;
    let before = lemma_hidden_revision(m, from, k);
    lemma_without_windows(m, from, k);
    let p = without_windows(m, from, k);
    let q = without_windows(m, from, to);
    let a = row_id(3 * k as int);
    let b = row_id(3 * k as int + 1);
    let c = row_id(3 * k as int + 2);
    assert(m.items.contains_key(a) && m.items.contains_key(b) && m.items.contains_key(c));
    assert(p.items.contains_key(a) && p.items.contains_key(b) && p.items.contains_key(c));
    assert(p.items[a] == m.items[a] && p.items[b] == m.items[b] && p.items[c] == m.items[c]);
    if window_hidden(p.items, k as int) {
        assert(q.items =~= p.items);
        before
    } else {
        assert(q.revision == next_revision(p.revision));
        if !reads(p.items, a, Seq::empty(), false) {
            assert(q.items[a] != m.items[a]);
            (before.0 + 1, a)
        } else if !reads(p.items, b, Seq::empty(), false) {
            assert(q.items[b] != m.items[b]);
            (before.0 + 1, b)
        } else {
            assert(q.items[c] != m.items[c]);
            (before.0 + 1, c)
        }
    }
}

/// How often a rebuild raises the revision, and an item that changed where it does
/// without adding a slot.
#[verifier::spinoff_prover]
#[verifier::rlimit(40)]
proof fn lemma_rebuilt_revision(
    m: Menu,
    labels: Seq<Seq<char>>,
    bars: Seq<Seq<char>>,
    burns: Seq<Option<Seq<char>>>,
) -> (k: (int, i32))
    requires
        menu_wf(m),
        labels.len() <= bars.len(),
        labels.len() <= MAX_SLOTS,
    ensures
        0 <= k.0 <= 1 + 3 * labels.len() + m.slots,
        k.0 <= 1 + 3 * MAX_SLOTS,
        rebuilt(m, labels, bars, burns).revision == advanced(m.revision, k.0),
        rebuilt(m, labels, bars, burns).slots >= m.slots,
        k.0 == 0 ==> rebuilt(m, labels, bars, burns) == m,
        k.0 > 0 && rebuilt(m, labels, bars, burns).slots == m.slots ==> rebuilt(
            m,
            labels,
            bars,
            burns,
        ).items[k.1] != m.items[k.1],
{
    let n = labels.len();
    let g = grown(m, n);
    lemma_grown(m, n);
    let more: int = if n > m.slots {
        1
    } else {
        0
    };
    assert(g.revision == advanced(m.revision, more));
    let w = with_windows(g, labels, bars, burns, n);
    let shown = lemma_windows_revision(g, labels, bars, burns, n);
    lemma_advanced(m.revision, g.revision, more, shown.0);
    assert(menu_wf(w) && w.slots == g.slots) by {
        lemma_with_windows(g, labels, bars, burns, n);
    }
    let r = without_windows(w, n, g.slots);
    assert(r == rebuilt(m, labels, bars, burns));
    let hidden = lemma_hidden_revision(w, n, g.slots);
    lemma_advanced(m.revision, w.revision, more + shown.0, hidden.0);
    assert(r.slots == g.slots) by {
        lemma_without_windows(w, n, g.slots);
    }
    let total = more + shown.0 + hidden.0;
    if shown.0 > 0 {
        assert(r.items[shown.1] == w.items[shown.1]) by {
            lemma_without_windows(w, n, g.slots);
            assert(!in_slots(shown.1, n, g.slots));
        }
        (total, shown.1)
    } else {
        (total, hidden.1)
    }
}

/// A panel that watches the revision misses no change and is told of none that was
/// not made: rebuilding the window rows leaves the revision alone exactly where it
/// adds no slot and changes no item, and raises it otherwise, unless it starts anew
/// at 0 on the way.
pub proof fn law_revision_tells_every_rebuilt_change(
    m: Menu,
    labels: Seq<Seq<char>>,
    bars: Seq<Seq<char>>,
    burns: Seq<Option<Seq<char>>>,
)
    requires
        menu_wf(m),
        labels.len() <= bars.len(),
        labels.len() <= MAX_SLOTS,
    ensures
        ({
            let r = rebuilt(m, labels, bars, burns);
            let rows = 3 * labels.len() + m.slots;
            &&& r.revision == m.revision <==> r.slots == m.slots && r.items == m.items
            &&& r.revision == m.revision ==> r == m && children_of(r.slots, ROOT_ID)
                == children_of(m.slots, ROOT_ID)
            &&& m.revision + 1 + rows <= u32::MAX ==> r.revision >= m.revision
        }),
{
    let r = rebuilt(m, labels, bars, burns);
    let k = lemma_rebuilt_revision(m, labels, bars, burns);
    assert(r.revision == m.revision <==> k.0 == 0);
    if k.0 > 0 && r.slots == m.slots {
        assert(r.items[k.1] != m.items[k.1]);
        assert(r.items != m.items);
    }
}

/// What holds of a menu in use holds of its mathematical value, so that every law
/// on menus speaks of it.
pub proof fn lemma_menu_is_well_formed(m: MenuInner)
    requires
        m.wf(),
    ensures
        menu_wf(m@),
{
}

/// A panel that watches the revision misses no change: installing a menu leaves
/// the revision alone exactly where it leaves every item alone.
pub proof fn law_revision_tells_every_installed_change(live: Menu, fresh: Menu)
    requires
        menu_wf(live),
        menu_wf(fresh),
    ensures
        installed(live, fresh).revision == live.revision <==> installed(live, fresh) == live,
        installed(live, fresh).slots >= live.slots,
        menu_wf(installed(live, fresh)),
        forall|id: i32|
            fresh.items.contains_key(id) ==> #[trigger] installed(live, fresh).items[id]
                == fresh.items[id],
{
    if live.slots > fresh.slots {
        lemma_blank_slots(fresh.items, fresh.slots, live.slots);
    }
}

/// The ids under the root before a rebuild stand there after it, in the same
/// order: the new windows' rows are added behind the old ones.
pub proof fn law_slots_are_stable(slots: nat, more: nat)
    requires
        slots <= more <= MAX_SLOTS,
    ensures
        forall|i: int|
            0 <= i <= 3 * slots ==> #[trigger] root_children(more)[i] == root_children(slots)[i],
        forall|k: int|
            0 <= k < 9 ==> root_children(more)[#[trigger] (3 * more + 1 + k)] == root_children(
                slots,
            )[3 * slots + 1 + k],
{
    lemma_root_children(slots);
    lemma_root_children(more);
    assert forall|i: int| 0 <= i <= 3 * slots implies #[trigger] root_children(more)[i]
        == root_children(slots)[i] by {
        assert(i > 0 ==> root_children(slots)[i] == row_id(i - 1));
    }
    assert forall|k: int| 0 <= k < 9 implies root_children(more)[#[trigger] (3 * more + 1 + k)]
        == root_children(slots)[3 * slots + 1 + k] by {
        assert(root_children(more)[3 * more + 1 + k] == fixed_tail()[k]);
        assert(root_children(slots)[3 * slots + 1 + k] == fixed_tail()[k]);
    }
}

/// The menu starts with a header, no windows, hidden throttled and error rows, and the
/// four actions under their names; nothing else can be clicked.
pub proof fn law_the_first_menu_offers_four_actions(id: i32)
    ensures
        ({
            let m = initial_menu();
            &&& m.slots == 0
            &&& m.items[1].label == "Plan: …"@ && m.items[1].visible && !m.items[1].enabled
            &&& !m.items[200].visible && !m.items[210].visible
            &&& m.items[301].label == "Refresh now"@ && m.items[301].action == Some(
                MenuCommand::Refresh,
            )
            &&& m.items[303].label == "Open dashboard"@ && m.items[303].action == Some(
                MenuCommand::OpenDashboard,
            )
            &&& m.items[304].label == "Set API Key…"@ && m.items[304].action == Some(
                MenuCommand::SetApiKey,
            )
            &&& m.items[306].label == "Quit"@ && m.items[306].action == Some(MenuCommand::Quit)
            &&& m.items[300].separator && m.items[302].separator && m.items[305].separator
            &&& m.items.contains_key(id) && m.items[id].separator ==> {
                &&& id == 300 || id == 302 || id == 305
                &&& m.items[id].visible && m.items[id].label.len() == 0
            }
            &&& m.items.contains_key(id) ==> m.items[id].id == id
            &&& m.items.contains_key(id) && m.items[id].action is Some ==> m.items[id].enabled
                && m.items[id].visible && (id == 301 || id == 303 || id == 304 || id == 306)
        }),
{
}

/// The rows of a window have ids of their own, three in a row: below 199 for the first
/// 33 windows, from 307 on for the others. Under the root they stand between the header
/// and the throttled row, window by window, and behind that come the error row and the
/// actions with lines between them.
pub proof fn law_rows_stand_in_order(slots: nat, i: int)
    requires
        slots <= MAX_SLOTS,
        0 <= i < slots,
    ensures
        i < 33 ==> row_id(3 * i) == 100 + 3 * i && row_id(3 * i + 1) == 101 + 3 * i && row_id(
            3 * i + 2,
        ) == 102 + 3 * i,
        i >= 33 ==> row_id(3 * i) == 208 + 3 * i && row_id(3 * i + 1) == 209 + 3 * i && row_id(
            3 * i + 2,
        ) == 210 + 3 * i,
        root_children(slots)[0] == 1,
        root_children(slots)[1 + 3 * i] == row_id(3 * i),
        root_children(slots)[2 + 3 * i] == row_id(3 * i + 1),
        root_children(slots)[3 + 3 * i] == row_id(3 * i + 2),
        root_children(slots).skip((1 + 3 * slots) as int) == seq![
            200i32,
            210,
            300,
            301,
            302,
            303,
            304,
            305,
            306,
        ],
        children_of(slots, 0) == root_children(slots),
        forall|id: i32| id != 0 ==> #[trigger] children_of(slots, id).len() == 0,
{
    lemma_root_children(slots);
    let c = root_children(slots);
    assert(c[1 + 3 * i] == row_id(3 * i));
    assert(c[2 + 3 * i] == row_id(3 * i + 1));
    assert(c[3 + 3 * i] == row_id(3 * i + 2));
    let t = fixed_tail();
    assert(t =~= seq![200i32, 210, 300, 301, 302, 303, 304, 305, 306]);
    assert(c.skip((1 + 3 * slots) as int) =~= t);
}

/// Setting a row changes its text and whether it shows, and nothing else of it or of
/// any other item; the revision moves on exactly where that changed something.
pub proof fn law_setting_a_row_changes_it_alone(
    m: Menu,
    id: i32,
    label: Seq<char>,
    visible: bool,
    other: i32,
)
    requires
        m.items.contains_key(id),
    ensures
        ({
            let r = put_row(m, id, label, visible);
            let same = m.items[id].label == label && m.items[id].visible == visible;
            &&& r.items[id].label == label
            &&& r.items[id].visible == visible
            &&& r.items[id].id == m.items[id].id
            &&& r.items[id].enabled == m.items[id].enabled
            &&& r.items[id].separator == m.items[id].separator
            &&& r.items[id].action == m.items[id].action
            &&& other != id ==> r.items[other] == m.items[other] && r.items.contains_key(other)
                == m.items.contains_key(other)
            &&& r.slots == m.slots
            &&& same ==> r.revision == m.revision
            &&& !same && m.revision < u32::MAX ==> r.revision == m.revision + 1
            &&& !same && m.revision == u32::MAX ==> r.revision == 0
        }),
{
}

/// After an installation the menu reads as the fresh one: every item of it is there as
/// it was built, and rows that only the old menu had are empty and hidden. The slots of
/// both stay. The revision moves on by one where anything changes, and stays otherwise.
pub proof fn law_installing_shows_the_fresh_menu(live: Menu, fresh: Menu, id: i32)
    requires
        menu_wf(live),
        menu_wf(fresh),
    ensures
        fresh.items.contains_key(id) ==> installed(live, fresh).items.contains_key(id) && installed(
            live,
            fresh,
        ).items[id] == fresh.items[id],
        live.items.contains_key(id) ==> installed(live, fresh).items.contains_key(id),
        live.items.contains_key(id) && !fresh.items.contains_key(id) ==> !installed(
            live,
            fresh,
        ).items[id].visible && installed(live, fresh).items[id].label.len() == 0 && installed(
            live,
            fresh,
        ).items[id].action is None && !installed(live, fresh).items[id].enabled && !installed(
            live,
            fresh,
        ).items[id].separator,
        ({
            let r = installed(live, fresh);
            let same = r.items == live.items && r.slots == live.slots;
            &&& r.slots == vstd::math::max(live.slots as int, fresh.slots as int)
            &&& same ==> r.revision == live.revision
            &&& !same && live.revision < u32::MAX ==> r.revision == live.revision + 1
            &&& !same && live.revision == u32::MAX ==> r.revision == 0
        }),
{
    lemma_blank_slots_are_blank(fresh.items, fresh.slots, live.slots, id);
    lemma_fixed_tail();
    if live.slots > fresh.slots {
        lemma_blank_slots(fresh.items, fresh.slots, live.slots);
    }
}

proof fn lemma_blank_slots_are_blank(items: Map<i32, Item>, from: nat, to: nat, id: i32)
    ensures
        items.contains_key(id) ==> with_blank_slots(items, from, to).contains_key(id)
            && with_blank_slots(items, from, to)[id] == items[id],
        with_blank_slots(items, from, to).contains_key(id) && !items.contains_key(id) ==> {
            let i = with_blank_slots(items, from, to)[id];
            !i.visible && i.label.len() == 0 && i.action is None && !i.enabled && !i.separator
        },
    decreases to,
{
    if to > from {
        lemma_blank_slots_are_blank(items, from, (to - 1) as nat, id);
    }
}

/// What panels are told of an item: of a row its text, whether it can be clicked and
/// whether it shows, and that nothing folds out of it; of a line that it is one, that
/// it cannot be clicked, and whether it shows.
pub proof fn law_panels_are_told_what_an_item_is(item: Item)
    ensures
        ({
            let p = item_props(item);
            &&& !item.separator ==> p.contains(("type"@, Prop::Text("standard"@))) && p.contains(
                ("label"@, Prop::Text(item.label)),
            ) && p.contains(("enabled"@, Prop::Flag(item.enabled))) && p.contains(
                ("visible"@, Prop::Flag(item.visible)),
            ) && p.contains(("children-display"@, Prop::Text("never"@))) && p.len() == 5
            &&& item.separator ==> p.contains(("type"@, Prop::Text("separator"@))) && p.contains(
                ("visible"@, Prop::Flag(item.visible)),
            ) && p.contains(("enabled"@, Prop::Flag(false))) && p.len() == 3
        }),
{
    let p = item_props(item);
    if item.separator {
        assert(p[0] == ("type"@, Prop::Text("separator"@)));
        assert(p[1] == ("visible"@, Prop::Flag(item.visible)));
        assert(p[2] == ("enabled"@, Prop::Flag(false)));
    } else {
        assert(p[0] == ("type"@, Prop::Text("standard"@)));
        assert(p[1] == ("label"@, Prop::Text(item.label)));
        assert(p[2] == ("enabled"@, Prop::Flag(item.enabled)));
        assert(p[3] == ("visible"@, Prop::Flag(item.visible)));
        assert(p[4] == ("children-display"@, Prop::Text("never"@)));
    }
}

/// After a rebuild the three rows of window `i` are its label, its bar and its burn row,
/// the last one only where there is a text for it; the rows of windows beyond the last
/// one are empty and hidden.
pub proof fn law_each_window_has_three_rows(
    m: Menu,
    labels: Seq<Seq<char>>,
    bars: Seq<Seq<char>>,
    burns: Seq<Option<Seq<char>>>,
    i: int,
)
    requires
        menu_wf(m),
        labels.len() <= bars.len(),
        labels.len() <= MAX_SLOTS,
        0 <= i < m.slots || 0 <= i < labels.len(),
    ensures
        ({
            let r = rebuilt(m, labels, bars, burns).items;
            let first = if i < 33 {
                100 + 3 * i
            } else {
                208 + 3 * i
            };
            let label = r[first as i32];
            let bar = r[(first + 1) as i32];
            let burn = r[(first + 2) as i32];
            &&& i < labels.len() ==> {
                &&& label.label == labels[i] && label.visible
                &&& bar.label == bars[i] && bar.visible
                &&& i < burns.len() ==> (burns[i] matches Some(t) ==> burn.label == t && burn.visible)
                &&& i >= burns.len() || burns[i] is None ==> burn.label.len() == 0 && !burn.visible
            }
            &&& i >= labels.len() ==> {
                &&& label.label.len() == 0 && !label.visible
                &&& bar.label.len() == 0 && !bar.visible
                &&& burn.label.len() == 0 && !burn.visible
            }
        }),
{
    law_rebuild_shows_exactly_the_windows(m, labels, bars, burns);
    let r = rebuilt(m, labels, bars, burns);
    if i < labels.len() {
        assert(window_reads(r.items, labels, bars, burns, i));
    } else {
        assert(window_hidden(r.items, i));
    }
}

} // verus!
