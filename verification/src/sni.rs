//! The tray's face on the session bus: the chip's properties and the answers to
//! the panel's questions about the menu.
use crate::menu::{
    build_layout_response, build_properties, item_props, lays_out_children, props_view,
    standard_item, ItemLayout, ItemLayoutResponse, Menu, MenuCommand, MenuInner, Prop, PropValue,
    ROOT_ID,
};
use crate::render::MenuChange;
use crate::text::{numeral, push_u64, same};
use vstd::prelude::*;

verus! {

pub const SNI_PATH: &'static str = "/StatusNotifierItem";

/// Path of the menu; panels take an item without a menu for unfinished.
pub const MENU_PATH: &'static str = "/Menu";

pub const WATCHER_NAME: &'static str = "org.kde.StatusNotifierWatcher";

pub const WATCHER_PATH: &'static str = "/StatusNotifierWatcher";

/// Category of the tray item.
pub const CATEGORY: &'static str = "ApplicationStatus";

/// Id of the tray item.
pub const ITEM_ID: &'static str = "llm-quota-tray";

/// Version of the menu protocol that is spoken.
pub const MENU_VERSION: u32 = 3;

pub const TEXT_DIRECTION: &'static str = "ltr";

pub const MENU_STATUS: &'static str = "normal";

/// Seconds that a signal may take to go out.
pub const SIGNAL_EMIT_SECONDS: u64 = 5;

/// The bus name of the tray of a process.
pub fn bus_name(pid: u32) -> (r: String)
    ensures
        r@ == "org.kde.StatusNotifierItem-"@ + numeral(pid as nat) + "-1"@,
{
    let mut out = "org.kde.StatusNotifierItem-".to_owned();
    push_u64(&mut out, pid as u64);
    out.append("-1");
    out
}

// ---------------------------------------------------------------------------
// Shared state
// ---------------------------------------------------------------------------

/// Pixels of an icon.
#[derive(Debug)]
pub struct Pixels {
    pub width: u32,
    pub height: u32,
    /// Four bytes per pixel.
    pub bytes: Vec<u8>,
}

/// What panels can see.
#[derive(Debug)]
pub struct SharedState {
    pub title: String,
    pub icon_name: String,
    pub status: String,
    pub pixmap: Option<Pixels>,
    pub menu_state: MenuInner,
    /// The link behind the dashboard item.
    pub dashboard_url: String,
    /// Revision of the menu that panels were last told of.
    pub menu_revision: u32,
    pub tool_tip_desc: String,
}

/// What panels are told to look at again.
#[derive(Debug, Clone, Copy, PartialEq, Eq, Structural)]
pub enum Signal {
    NewIcon,
    NewTitle,
    NewStatus,
    /// The menu's items changed, as of this revision.
    ItemsUpdated(u32),
    /// The menu below an item changed, as of this revision.
    LayoutUpdated(u32, i32),
}

/// The signals of a changed chip.
pub open spec fn chip_signals() -> Seq<Signal> {
    seq![Signal::NewIcon, Signal::NewTitle, Signal::NewStatus]
}

/// The signals of a changed menu.
pub open spec fn menu_signals(revision: u32) -> Seq<Signal> {
    seq![Signal::ItemsUpdated(revision), Signal::LayoutUpdated(revision, ROOT_ID)]
}

impl SharedState {
    /// Whether the state is sound.
    pub open spec fn wf(&self) -> bool {
        self.menu_state.wf()
    }

    /// What panels can see before the first poll.
    pub fn new(initial_dashboard_url: String) -> (r: SharedState)
        ensures
            r.wf(),
            r.title@ == ""@,
            r.icon_name@ == "dialog-information-symbolic"@,
            r.status@ == "Passive"@,
            r.pixmap is None,
            r.menu_state@ == crate::menu::initial_menu(),
            r.dashboard_url == initial_dashboard_url,
            r.menu_revision == 0,
            r.tool_tip_desc@ == ""@,
    {
        SharedState {
            title: "".to_owned(),
            icon_name: "dialog-information-symbolic".to_owned(),
            status: "Passive".to_owned(),
            pixmap: None,
            menu_state: MenuInner::new(),
            dashboard_url: initial_dashboard_url,
            menu_revision: 0,
            tool_tip_desc: "".to_owned(),
        }
    }

    /// Changes the chip; without new pixels the old ones stay.
    pub fn update(
        &mut self,
        title: &str,
        icon_name: &str,
        status: &str,
        pixmap: Option<Pixels>,
        tool_tip_desc: &str,
    ) -> (r: Vec<Signal>)
        ensures
            r@ == chip_signals(),
            final(self).title@ == title@,
            final(self).icon_name@ == icon_name@,
            final(self).status@ == status@,
            final(self).tool_tip_desc@ == tool_tip_desc@,
            final(self).pixmap == (match pixmap {
                Some(p) => Some(p),
                None => old(self).pixmap,
            }),
            final(self).menu_state == old(self).menu_state,
            final(self).dashboard_url == old(self).dashboard_url,
            final(self).menu_revision == old(self).menu_revision,
    {
        self.title = title.to_owned();
        self.icon_name = icon_name.to_owned();
        self.status = status.to_owned();
        if let Some(p) = pixmap {
            self.pixmap = Some(p);
        }
        self.tool_tip_desc = tool_tip_desc.to_owned();
        let signals = vec![Signal::NewIcon, Signal::NewTitle, Signal::NewStatus];
        assert(signals@ =~= chip_signals());
        signals
    }

    /// Changes the menu; panels are told where its revision moved.
    pub fn apply_menu(&mut self, change: MenuChange) -> (r: Vec<Signal>)
        requires
            old(self).wf(),
            change.wf(),
        ensures
            final(self).wf(),
            final(self).menu_state@ == change.result(old(self).menu_state@),
            final(self).menu_revision == final(self).menu_state@.revision,
            r@ == (if final(self).menu_revision != old(self).menu_revision {
                menu_signals(final(self).menu_revision)
            } else {
                Seq::empty()
            }),
            final(self).title == old(self).title,
            final(self).icon_name == old(self).icon_name,
            final(self).status == old(self).status,
            final(self).pixmap == old(self).pixmap,
            final(self).dashboard_url == old(self).dashboard_url,
            final(self).tool_tip_desc == old(self).tool_tip_desc,
    {
        let previous: u32 = self.menu_revision;
        change.apply(&mut self.menu_state);
        let revision: u32 = self.menu_state.revision();
        self.menu_revision = revision;
        if revision != previous {
            let signals = vec![
                Signal::ItemsUpdated(revision),
                Signal::LayoutUpdated(revision, ROOT_ID),
            ];
            assert(signals@ =~= menu_signals(revision));
            signals
        } else {
            Vec::new()
        }
    }

    /// The icon as pixels, where there are any: width, height and bytes.
    pub fn icon_pixmap(&self) -> (r: Vec<(i32, i32, Vec<u8>)>)
        ensures
            match self.pixmap {
                Some(p) => r@.len() == 1 && r@[0].0 == p.width as i32 && r@[0].1 == p.height as i32
                    && r@[0].2@ == p.bytes@,
                None => r@.len() == 0,
            },
    {
        let mut out: Vec<(i32, i32, Vec<u8>)> = Vec::new();
        if let Some(p) = &self.pixmap {
            out.push(
                (
                    p.width as i32,
                    p.height as i32,
                    vstd::slice::slice_to_vec(p.bytes.as_slice()),
                ),
            );
        }
        out
    }

    /// The tooltip: no icon, no title, and the description.
    pub fn tool_tip(&self) -> (r: (String, (String, String), bool))
        ensures
            r.0@ == ""@,
            (r.1).0@ == ""@,
            (r.1).1@ == self.tool_tip_desc@,
            !r.2,
    {
        ("".to_owned(), ("".to_owned(), self.tool_tip_desc.clone()), false)
    }

    /// Changes the link behind the dashboard item.
    pub fn set_dashboard_url(&mut self, url: String)
        ensures
            *final(self) == (SharedState { dashboard_url: url, ..*old(self) }),
    {
        self.dashboard_url = url;
    }

    /// The link behind the dashboard item.
    pub fn dashboard_url(&self) -> (r: &str)
        ensures
            r@ == self.dashboard_url@,
    {
        self.dashboard_url.as_str()
    }

    /// What a panel that has just appeared, or taken over, is told; one that has
    /// gone is told nothing.
    pub fn recovery_signals(&self, has_owner: bool) -> (r: Vec<Signal>)
        ensures
            r@ == (if has_owner {
                chip_signals() + menu_signals(self.menu_revision)
            } else {
                Seq::empty()
            }),
    {
        if !has_owner {
            return Vec::new();
        }
        let signals = vec![
            Signal::NewIcon,
            Signal::NewTitle,
            Signal::NewStatus,
            Signal::ItemsUpdated(self.menu_revision),
            Signal::LayoutUpdated(self.menu_revision, ROOT_ID),
        ];
        assert(signals@ =~= chip_signals() + menu_signals(self.menu_revision));
        signals
    }
}

// ---------------------------------------------------------------------------
// The panel's questions about the menu
// ---------------------------------------------------------------------------

/// Whether `r` is the layout of an item as of the current revision, with its
/// children or alone; an unknown item reads as an empty row.
pub open spec fn answers_layout(r: ItemLayoutResponse, m: Menu, id: i32, with_children: bool) -> bool {
    &&& r.0 == m.revision
    &&& r.1.id == id
    &&& props_view(r.1.props@) == item_props(
        if m.items.contains_key(id) {
            m.items[id]
        } else {
            standard_item(id, ""@, true, true)
        },
    )
    &&& if with_children {
        lays_out_children(r.1.children@, m, id)
    } else {
        r.1.children@.len() == 0
    }
}

/// The layout of an item. Depth 0 asks for the item alone, any other for its
/// children too; rows have no children of their own.
pub fn get_layout(menu: &MenuInner, parent_id: i32, recursion_depth: i32) -> (r: ItemLayoutResponse)
    requires
        menu.wf(),
    ensures
        answers_layout(r, menu@, parent_id, recursion_depth != 0),
{
    let (revision, layout) = build_layout_response(menu, parent_id, recursion_depth != 0);
    if recursion_depth != 0 {
        (revision, layout)
    } else {
        (revision, ItemLayout { id: layout.id, props: layout.props, children: Vec::new() })
    }
}

/// Those of the items `ids` that exist, in order.
pub open spec fn known(m: Menu, ids: Seq<i32>) -> Seq<i32> {
    ids.filter(|id: i32| m.items.contains_key(id))
}

/// The properties of items, without those that do not exist.
pub fn get_group_properties(menu: &MenuInner, ids: &Vec<i32>) -> (r: Vec<
    (i32, Vec<(&'static str, PropValue)>),
>)
    ensures
        r@.len() == known(menu@, ids@).len(),
        forall|i: int|
            0 <= i < r@.len() ==> (#[trigger] r@[i]).0 == known(menu@, ids@)[i] && props_view(
                r@[i].1@,
            ) == item_props(menu@.items[r@[i].0]),
{
    let mut out: Vec<(i32, Vec<(&'static str, PropValue)>)> = Vec::new();
    let ghost m = menu@;
    let mut i: usize = 0;
    proof {
        reveal(Seq::filter);
        assert(ids@.take(0) =~= Seq::<i32>::empty());
    }
    while i < ids.len()
        invariant
            m == menu@,
            i <= ids@.len(),
            out@.len() == known(m, ids@.take(i as int)).len(),
            forall|j: int|
                0 <= j < out@.len() ==> (#[trigger] out@[j]).0 == known(m, ids@.take(i as int))[j]
                    && props_view(out@[j].1@) == item_props(m.items[out@[j].0]),
        decreases ids@.len() - i,
    {
        proof {
            reveal(Seq::filter);
            assert(ids@.take(i + 1).drop_last() =~= ids@.take(i as int));
        }
        if let Some(item) = menu.item(ids[i]) {
            out.push((ids[i], build_properties(item)));
        }
        i += 1;
    }
    assert(ids@.take(ids@.len() as int) =~= ids@);
    out
}

/// One property of a list.
pub open spec fn prop_named(props: Seq<(Seq<char>, Prop)>, name: Seq<char>) -> Option<Prop>
    decreases props.len(),
{
    if props.len() == 0 {
        None
    } else if props[0].0 == name {
        Some(props[0].1)
    } else {
        prop_named(props.skip(1), name)
    }
}

/// A property of an item; an empty text where there is no such item or property.
pub open spec fn property_of(m: Menu, id: i32, name: Seq<char>) -> Prop {
    if m.items.contains_key(id) {
        match prop_named(item_props(m.items[id]), name) {
            Some(p) => p,
            None => Prop::Text(""@),
        }
    } else {
        Prop::Text(""@)
    }
}

/// A property of an item.
pub fn get_property(menu: &MenuInner, id: i32, name: &str) -> (r: PropValue)
    ensures
        r@ == property_of(menu@, id, name@),
{
    let item = match menu.item(id) {
        Some(i) => i,
        None => return PropValue::Text("".to_owned()),
    };
    let mut props = build_properties(item);
    let ghost all = props_view(props@);
    let mut i: usize = 0;
    assert(all.skip(0) =~= all);
    while i < props.len()
        invariant
            menu@.items.contains_key(id),
            all == item_props(menu@.items[id]),
            all == props_view(props@),
            i <= props@.len(),
            prop_named(all, name@) == prop_named(all.skip(i as int), name@),
        decreases props@.len() - i,
    {
        assert(all.skip(i as int)[0] == all[i as int]);
        if same(props[i].0, name) {
            let found = props.swap_remove(i);
            return found.1;
        }
        assert(all.skip(i as int).skip(1) =~= all.skip(i + 1));
        i += 1;
    }
    PropValue::Text("".to_owned())
}

/// What an event on an item asks for: only a click on an item with an action asks
/// for anything.
pub open spec fn command_of(m: Menu, id: i32, event: Seq<char>) -> Option<MenuCommand> {
    if event == "clicked"@ && m.items.contains_key(id) {
        m.items[id].action
    } else {
        None
    }
}

/// What an event on an item asks for.
pub fn event(menu: &MenuInner, id: i32, event_id: &str) -> (r: Option<MenuCommand>)
    ensures
        r == command_of(menu@, id, event_id@),
{
    if !same(event_id, "clicked") {
        return None;
    }
    match menu.item(id) {
        Some(item) => item.action,
        None => None,
    }
}

/// What events on items ask for, in order.
pub open spec fn commands_of(m: Menu, events: Seq<(i32, String)>) -> Seq<MenuCommand>
    decreases events.len(),
{
    if events.len() == 0 {
        Seq::empty()
    } else {
        let before = commands_of(m, events.drop_last());
        match command_of(m, events.last().0, events.last().1@) {
            Some(c) => before.push(c),
            None => before,
        }
    }
}

/// What events on items ask for, in order.
pub fn event_group(menu: &MenuInner, events: &Vec<(i32, String)>) -> (r: Vec<MenuCommand>)
    ensures
        r@ == commands_of(menu@, events@),
{
    let mut out: Vec<MenuCommand> = Vec::new();
    let mut i: usize = 0;
    assert(events@.take(0) =~= Seq::<(i32, String)>::empty());
    while i < events.len()
        invariant
            i <= events@.len(),
            out@ == commands_of(menu@, events@.take(i as int)),
        decreases events@.len() - i,
    {
        assert(events@.take(i + 1).drop_last() =~= events@.take(i as int));
        if let Some(c) = event(menu, events[i].0, events[i].1.as_str()) {
            out.push(c);
        }
        i += 1;
    }
    assert(events@.take(events@.len() as int) =~= events@);
    out
}

// ---------------------------------------------------------------------------
// Laws
// ---------------------------------------------------------------------------

/// Only a click asks for anything, and then for what its item is for; the events of a
/// group ask one after the other.
pub proof fn law_only_clicks_ask(
    m: Menu,
    id: i32,
    event: Seq<char>,
    events: Seq<(i32, String)>,
    last: (i32, String),
)
    ensures
        event != "clicked"@ ==> command_of(m, id, event) is None,
        !m.items.contains_key(id) ==> command_of(m, id, event) is None,
        event == "clicked"@ && m.items.contains_key(id) ==> command_of(m, id, event)
            == m.items[id].action,
        commands_of(m, Seq::empty()).len() == 0,
        ({
            let before = commands_of(m, events);
            let after = commands_of(m, events.push(last));
            let clicked = last.1@ == "clicked"@ && m.items.contains_key(last.0);
            &&& clicked && m.items[last.0].action is Some ==> after == before.push(
                m.items[last.0].action->0,
            )
            &&& !clicked || m.items[last.0].action is None ==> after == before
        }),
{
    assert(events.push(last).drop_last() =~= events);
}

/// A property that an item has is answered with its value, any other, and any of an
/// unknown item, with an empty text.
pub proof fn law_properties_are_answered(m: Menu, id: i32, name: Seq<char>)
    ensures
        !m.items.contains_key(id) ==> property_of(m, id, name) == Prop::Text(""@),
        m.items.contains_key(id) && !m.items[id].separator ==> {
            let i = m.items[id];
            &&& property_of(m, id, "label"@) == Prop::Text(i.label)
            &&& property_of(m, id, "enabled"@) == Prop::Flag(i.enabled)
            &&& property_of(m, id, "visible"@) == Prop::Flag(i.visible)
            &&& property_of(m, id, "type"@) == Prop::Text("standard"@)
            &&& name != "label"@ && name != "enabled"@ && name != "visible"@ && name != "type"@
                && name != "children-display"@ ==> property_of(m, id, name) == Prop::Text(""@)
        },
        m.items.contains_key(id) && m.items[id].separator ==> {
            &&& property_of(m, id, "type"@) == Prop::Text("separator"@)
            &&& property_of(m, id, "enabled"@) == Prop::Flag(false)
            &&& property_of(m, id, "visible"@) == Prop::Flag(m.items[id].visible)
        },
{
    reveal_strlit("type");
    reveal_strlit("label");
    reveal_strlit("enabled");
    reveal_strlit("visible");
    reveal_strlit("children-display");
    assert("type"@.len() == 4 && "label"@.len() == 5 && "enabled"@.len() == 7 && "visible"@.len()
        == 7 && "children-display"@.len() == 16);
    assert("enabled"@[0] == 'e' && "visible"@[0] == 'v');
    if m.items.contains_key(id) {
        let p = item_props(m.items[id]);
        lemma_prop_named(p, "type"@);
        lemma_prop_named(p, "label"@);
        lemma_prop_named(p, "enabled"@);
        lemma_prop_named(p, "visible"@);
        lemma_prop_named(p, name);
    }
}

/// A property is found at the first place that carries its name.
proof fn lemma_prop_named(p: Seq<(Seq<char>, Prop)>, name: Seq<char>)
    requires
        3 <= p.len() <= 5,
    ensures
        prop_named(p, name) == (if p[0].0 == name {
            Some(p[0].1)
        } else if p[1].0 == name {
            Some(p[1].1)
        } else if p[2].0 == name {
            Some(p[2].1)
        } else if p.len() > 3 && p[3].0 == name {
            Some(p[3].1)
        } else if p.len() > 4 && p[4].0 == name {
            Some(p[4].1)
        } else {
            None
        }),
{
    reveal_with_fuel(prop_named, 6);
    assert(p.skip(1)[0] == p[1]);
    assert(p.skip(1).skip(1) =~= p.skip(2));
    assert(p.skip(2)[0] == p[2]);
    assert(p.skip(2).skip(1) =~= p.skip(3));
    if p.len() > 3 {
        assert(p.skip(3)[0] == p[3]);
        assert(p.skip(3).skip(1) =~= p.skip(4));
    }
    if p.len() > 4 {
        assert(p.skip(4)[0] == p[4]);
        assert(p.skip(4).skip(1) =~= p.skip(5));
    }
}

/// Of the items that a panel asks for it gets those that exist.
pub proof fn law_known_items_are_kept(m: Menu, ids: Seq<i32>, id: i32)
    ensures
        known(m, Seq::empty()).len() == 0,
        m.items.contains_key(id) ==> known(m, ids.push(id)) == known(m, ids).push(id),
        !m.items.contains_key(id) ==> known(m, ids.push(id)) == known(m, ids),
{
    reveal(Seq::filter);
    assert(ids.push(id).drop_last() =~= ids);
}

/// A changed chip has panels look at its icon, its title and its status, a changed menu
/// at its items and its layout as of the revision.
pub proof fn law_signals_name_what_changed(revision: u32)
    ensures
        chip_signals() == seq![Signal::NewIcon, Signal::NewTitle, Signal::NewStatus],
        menu_signals(revision) == seq![
            Signal::ItemsUpdated(revision),
            Signal::LayoutUpdated(revision, 0),
        ],
{
}

/// A layout carries the revision and, asked for the root with its children, every row in
/// the order in which it is shown, each as it is.
pub proof fn law_layouts_show_the_rows_in_order(r: ItemLayoutResponse, m: Menu, i: int)
    requires
        answers_layout(r, m, 0, true),
        crate::menu::menu_wf(m),
        0 <= i < r.1.children@.len(),
    ensures
        r.0 == m.revision,
        r.1.id == 0,
        r.1.children@.len() == 10 + 3 * m.slots,
        r.1.children@[i].id == crate::menu::root_children(m.slots)[i],
        props_view(r.1.children@[i].props@) == item_props(
            m.items[crate::menu::root_children(m.slots)[i]],
        ),
        r.1.children@[i].children@.len() == 0,
{
    crate::menu::law_root_children_are_distinct(m.slots);
    assert(crate::menu::lays_out_leaf(
        r.1.children@[i],
        m,
        crate::menu::children_of(m.slots, 0)[i],
    ));
}

/// A row has no children, an item alone is answered without any, and an item that does
/// not exist reads as an empty row.
pub proof fn law_rows_and_unknown_items_stand_alone(
    r: ItemLayoutResponse,
    m: Menu,
    id: i32,
    with_children: bool,
)
    requires
        answers_layout(r, m, id, with_children),
    ensures
        r.0 == m.revision,
        r.1.id == id,
        id != 0 || !with_children ==> r.1.children@.len() == 0,
        m.items.contains_key(id) ==> props_view(r.1.props@) == item_props(m.items[id]),
        !m.items.contains_key(id) ==> props_view(r.1.props@).contains(("label"@, Prop::Text(""@)))
            && props_view(r.1.props@).contains(("visible"@, Prop::Flag(true))),
{
    if !m.items.contains_key(id) {
        let p = props_view(r.1.props@);
        assert(p[1] == ("label"@, Prop::Text(""@)));
        assert(p[3] == ("visible"@, Prop::Flag(true)));
    }
}

} // verus!
