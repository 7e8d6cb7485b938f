//! Keeping the window up to date.
//!
//! One task listens to each entity and marks it as changed, one task flushes the
//! changed entities to the window at a fixed pace, and one task watches the
//! connection. The tasks live outside; what they do at each event is decided here.
use crate::entity::{EntityId, EntityModel};
use crate::row_index::{build_row_index, routed, RowIndex};
use crate::schema::{Dashboard, Widget, WidgetOptions};
use crate::split::SplitTileVms;
use crate::store::MemoryStore;
use crate::text::opt_text;
use crate::tile::{TileKind, TileVM};
use crate::tiles::{build_tiles, tile_for, tiles_for};
use vstd::prelude::*;

verus! {

/// The pace of flushing, in milliseconds.
pub const FLUSH_INTERVAL_MS: u64 = 80;

/// The state of the connection to the home.
#[derive(Clone, Copy, Debug, PartialEq, Eq, Structural)]
pub enum ConnectionState {
    Connecting,
    Authenticating,
    Subscribing,
    Snapshotting,
    Services,
    Live,
    Reconnecting,
    Failed,
}

/// While the connection is lost nothing is drawn.
pub open spec fn gated(state: ConnectionState) -> bool {
    state == ConnectionState::Reconnecting || state == ConnectionState::Failed
}

/// Whether drawing is held back.
pub fn is_writes_gated(state: ConnectionState) -> (r: bool)
    ensures
        r == gated(state),
        r <==> (state is Reconnecting || state is Failed),
{
    match state {
        ConnectionState::Reconnecting => true,
        ConnectionState::Failed => true,
        _ => false,
    }
}

/// The texts of some ids.
pub open spec fn id_texts(ids: Seq<EntityId>) -> Seq<Seq<char>> {
    Seq::new(ids.len(), |i: int| ids[i]@)
}

/// The ids that widgets name, in document order.
pub open spec fn named_ids(widgets: Seq<Widget>) -> Seq<Seq<char>>
    decreases widgets.len(),
{
    if widgets.len() == 0 {
        Seq::empty()
    } else {
        let before = named_ids(widgets.drop_last());
        match widgets.last().entity {
            Some(s) => before.push(s@),
            None => before,
        }
    }
}

/// Some ids without those that occurred before.
pub open spec fn first_seen(ids: Seq<Seq<char>>) -> Seq<Seq<char>>
    decreases ids.len(),
{
    if ids.len() == 0 {
        Seq::empty()
    } else {
        let before = first_seen(ids.drop_last());
        if before.contains(ids.last()) {
            before
        } else {
            before.push(ids.last())
        }
    }
}

/// The ids that the widgets of a dashboard name, in document order. An id that is
/// named twice occurs twice.
pub fn collect_visible_entity_ids(dashboard: &Dashboard) -> (r: Vec<EntityId>)
    ensures
        id_texts(r@) == named_ids(dashboard.widgets()),
{
    let widgets: Vec<&Widget> = dashboard.widget_list();
    let ghost all = dashboard.widgets();
    let mut ids: Vec<EntityId> = Vec::new();
    let mut i: usize = 0;
    assert(all.take(0) =~= Seq::empty());
    assert(id_texts(ids@) =~= Seq::empty());
    while i < widgets.len()
        invariant
            i <= widgets@.len() == all.len(),
            forall|j: int| 0 <= j < all.len() ==> *(#[trigger] widgets@[j]) == all[j],
            id_texts(ids@) == named_ids(all.take(i as int)),
        decreases widgets@.len() - i,
    {
        let ghost before = ids@;
        proof {
            assert(all.take(i + 1).drop_last() =~= all.take(i as int));
            assert(all.take(i + 1).last() == all[i as int]);
        }
        match &widgets[i].entity {
            Some(s) => {
                ids.push(EntityId { text: s.clone() });
                assert(id_texts(ids@) =~= id_texts(before).push(s@));
            },
            None => {},
        }
        i = i + 1;
    }
    assert(all.take(i as int) =~= all);
    ids
}

fn holds_id(ids: &Vec<EntityId>, id: &EntityId) -> (r: bool)
    ensures
        r == id_texts(ids@).contains(id@),
{
    let ghost texts = id_texts(ids@);
    let mut i: usize = 0;
    while i < ids.len()
        invariant
            i <= ids@.len(),
            texts == id_texts(ids@),
            forall|j: int| 0 <= j < i ==> #[trigger] texts[j] != id@,
        decreases ids@.len() - i,
    {
        assert(texts[i as int] == ids@[i as int]@);
        if ids[i].same(id) {
            return true;
        }
        i = i + 1;
    }
    assert(!texts.contains(id@));
    false
}

/// The ids to subscribe to: each one once, in the order in which they come up.
pub fn unique_entity_ids(ids: &Vec<EntityId>) -> (r: Vec<EntityId>)
    ensures
        id_texts(r@) == first_seen(id_texts(ids@)),
{
    let ghost all = id_texts(ids@);
    let mut out: Vec<EntityId> = Vec::new();
    let mut i: usize = 0;
    assert(all.take(0) =~= Seq::empty());
    assert(id_texts(out@) =~= Seq::empty());
    while i < ids.len()
        invariant
            i <= ids@.len(),
            all == id_texts(ids@),
            id_texts(out@) == first_seen(all.take(i as int)),
        decreases ids@.len() - i,
    {
        let ghost before = out@;
        proof {
            assert(all.take(i + 1).drop_last() =~= all.take(i as int));
            assert(all.take(i + 1).last() == ids@[i as int]@);
        }
        if !holds_id(&out, &ids[i]) {
            out.push(ids[i].clone());
            assert(id_texts(out@) =~= id_texts(before).push(ids@[i as int]@));
        }
        i = i + 1;
    }
    assert(all.take(i as int) =~= all);
    out
}

/// Each id is subscribed to exactly once, and none is left out.
pub proof fn each_id_is_subscribed_once(ids: Seq<Seq<char>>)
    ensures
        first_seen(ids).no_duplicates(),
        forall|id: Seq<char>| #[trigger] first_seen(ids).contains(id) <==> ids.contains(id),
    decreases ids.len(),
{
    if ids.len() > 0 {
        let rest = ids.drop_last();
        each_id_is_subscribed_once(rest);
        assert forall|id: Seq<char>| #[trigger] first_seen(ids).contains(id) <==> ids.contains(
            id,
        ) by {
            assert(ids =~= rest.push(ids.last()));
            if rest.contains(id) {
                let j = choose|j: int| 0 <= j < rest.len() && rest[j] == id;
                assert(ids[j] == id);
            }
            if ids.contains(id) && id != ids.last() {
                let j = choose|j: int| 0 <= j < ids.len() && ids[j] == id;
                assert(rest[j] == id);
            }
            let before = first_seen(rest);
            if before.contains(id) {
                let j = choose|j: int| 0 <= j < before.len() && before[j] == id;
                assert(first_seen(ids)[j] == id);
            }
            if id == ids.last() && !before.contains(id) {
                assert(first_seen(ids)[before.len() as int] == id);
            }
            if first_seen(ids).contains(id) && id != ids.last() {
                let j = choose|j: int| 0 <= j < first_seen(ids).len() && first_seen(ids)[j] == id;
                assert(before[j] == id);
            }
            assert(ids[ids.len() - 1] == ids.last());
        }
    }
}

/// An id that may or may not be configured.
pub open spec fn optional_id(id: Option<String>) -> Seq<Seq<char>> {
    match id {
        Some(s) => seq![s@],
        None => Seq::empty(),
    }
}

/// The ids that the tile of a widget is made from: that of the widget, and those of
/// the lanes of a power flow.
pub open spec fn widget_lookups(w: Widget) -> Seq<Seq<char>> {
    seq![w.bound_id()] + match w.options {
        Some(
            WidgetOptions::PowerFlow {
                grid_entity,
                solar_entity,
                battery_entity,
                battery_soc_entity,
                home_entity,
            },
        ) => seq![grid_entity@] + optional_id(solar_entity) + optional_id(battery_entity)
            + optional_id(battery_soc_entity) + optional_id(home_entity),
        _ => Seq::empty(),
    }
}

/// The ids that the tiles of some widgets are made from.
pub open spec fn lookups(widgets: Seq<Widget>) -> Seq<Seq<char>>
    decreases widgets.len(),
{
    if widgets.len() == 0 {
        Seq::empty()
    } else {
        lookups(widgets.drop_last()) + widget_lookups(widgets.last())
    }
}

fn push_optional(ids: &mut Vec<EntityId>, id: &Option<String>)
    ensures
        id_texts(final(ids)@) == id_texts(old(ids)@) + optional_id(*id),
{
    match id {
        Some(s) => {
            ids.push(EntityId { text: s.clone() });
        },
        None => {},
    }
    assert(id_texts(ids@) =~= id_texts(old(ids)@) + optional_id(*id));
}

fn push_lookups(ids: &mut Vec<EntityId>, widget: &Widget)
    ensures
        id_texts(final(ids)@) == id_texts(old(ids)@) + widget_lookups(*widget),
{
    let ghost before = id_texts(ids@);
    let own: EntityId = match &widget.entity {
        Some(s) => EntityId { text: s.clone() },
        None => EntityId { text: String::new() },
    };
    assert(own@ == widget.bound_id());
    ids.push(own);
    assert(id_texts(ids@) =~= before.push(widget.bound_id()));
    match &widget.options {
        Some(
            WidgetOptions::PowerFlow {
                grid_entity,
                solar_entity,
                battery_entity,
                battery_soc_entity,
                home_entity,
            },
        ) => {
            let ghost own_only = id_texts(ids@);
            ids.push(EntityId { text: grid_entity.clone() });
            assert(id_texts(ids@) =~= own_only.push(grid_entity@));
            push_optional(ids, solar_entity);
            push_optional(ids, battery_entity);
            push_optional(ids, battery_soc_entity);
            push_optional(ids, home_entity);
        },
        _ => {},
    }
    assert(id_texts(ids@) =~= before + widget_lookups(*widget));
}

/// The ids to look up before tiles are built: each one once.
pub fn lookup_ids(dashboard: &Dashboard) -> (r: Vec<EntityId>)
    ensures
        id_texts(r@) == first_seen(lookups(dashboard.widgets())),
{
    let widgets: Vec<&Widget> = dashboard.widget_list();
    let ghost all = dashboard.widgets();
    let mut ids: Vec<EntityId> = Vec::new();
    let mut i: usize = 0;
    assert(all.take(0) =~= Seq::empty());
    assert(id_texts(ids@) =~= Seq::empty());
    while i < widgets.len()
        invariant
            i <= widgets@.len() == all.len(),
            forall|j: int| 0 <= j < all.len() ==> *(#[trigger] widgets@[j]) == all[j],
            id_texts(ids@) == lookups(all.take(i as int)),
        decreases widgets@.len() - i,
    {
        proof {
            assert(all.take(i + 1).drop_last() =~= all.take(i as int));
            assert(all.take(i + 1).last() == all[i as int]);
        }
        push_lookups(&mut ids, widgets[i]);
        i = i + 1;
    }
    assert(all.take(i as int) =~= all);
    unique_entity_ids(&ids)
}

/// Two snapshots say the same of an entity.
pub open spec fn agree_on(
    a: Map<Seq<char>, EntityModel>,
    b: Map<Seq<char>, EntityModel>,
    id: Seq<char>,
) -> bool {
    &&& a.contains_key(id) <==> b.contains_key(id)
    &&& a.contains_key(id) ==> a[id] == b[id]
}

/// Tiles are made from the entities that are looked up, and from no others:
/// snapshots that agree on those give the same tiles.
pub proof fn tiles_need_only_the_lookups(
    a: Map<Seq<char>, EntityModel>,
    b: Map<Seq<char>, EntityModel>,
    widgets: Seq<Widget>,
)
    requires
        forall|id: Seq<char>| #[trigger]
            first_seen(lookups(widgets)).contains(id) ==> agree_on(a, b, id),
    ensures
        tiles_for(a, widgets) == tiles_for(b, widgets),
{
    let ids = lookups(widgets);
    each_id_is_subscribed_once(ids);
    assert forall|i: int| 0 <= i < widgets.len() implies tile_for(a, widgets[i]) == tile_for(
        b,
        widgets[i],
    ) by {
        assert forall|id: Seq<char>| widget_lookups(widgets[i]).contains(id) implies agree_on(
            a,
            b,
            id,
        ) by {
            lemma_lookup_is_listed(widgets, i, id);
            assert(first_seen(ids).contains(id));
        }
        lemma_tile_needs_only_its_lookups(a, b, widgets[i]);
    }
    assert(tiles_for(a, widgets) =~= tiles_for(b, widgets));
}

proof fn lemma_lookup_is_listed(widgets: Seq<Widget>, i: int, id: Seq<char>)
    requires
        0 <= i < widgets.len(),
        widget_lookups(widgets[i]).contains(id),
    ensures
        lookups(widgets).contains(id),
    decreases widgets.len(),
{
    let before = lookups(widgets.drop_last());
    let own = widget_lookups(widgets.last());
    if i == widgets.len() - 1 {
        let j = own.index_of(id);
        assert(own[j] == id);
        assert((before + own)[before.len() + j] == id);
    } else {
        lemma_lookup_is_listed(widgets.drop_last(), i, id);
        let j = before.index_of(id);
        assert(before[j] == id);
        assert((before + own)[j] == id);
    }
}

proof fn lemma_tile_needs_only_its_lookups(
    a: Map<Seq<char>, EntityModel>,
    b: Map<Seq<char>, EntityModel>,
    w: Widget,
)
    requires
        forall|id: Seq<char>| #[trigger] widget_lookups(w).contains(id) ==> agree_on(a, b, id),
    ensures
        tile_for(a, w) == tile_for(b, w),
{
    let ids = widget_lookups(w);
    assert(ids[0] == w.bound_id());
    assert(ids.contains(w.bound_id()));
    match w.options {
        Some(
            WidgetOptions::PowerFlow {
                grid_entity,
                solar_entity,
                battery_entity,
                battery_soc_entity,
                home_entity,
            },
        ) => {
            let (s, t, u) = (
                optional_id(solar_entity),
                optional_id(battery_entity),
                optional_id(battery_soc_entity),
            );
            assert(ids[1] == grid_entity@);
            assert(ids.contains(grid_entity@));
            if solar_entity is Some {
                assert(ids[2] == solar_entity->0@);
                assert(ids.contains(solar_entity->0@));
            }
            if battery_entity is Some {
                assert(ids[(2 + s.len()) as int] == battery_entity->0@);
                assert(ids.contains(battery_entity->0@));
            }
            if battery_soc_entity is Some {
                assert(ids[(2 + s.len() + t.len()) as int] == battery_soc_entity->0@);
                assert(ids.contains(battery_soc_entity->0@));
            }
            if home_entity is Some {
                assert(ids[(2 + s.len() + t.len() + u.len()) as int] == home_entity->0@);
                assert(ids.contains(home_entity->0@));
            }
        },
        _ => {},
    }
}

/// What a bridge starts with.
pub struct BridgePlan {
    /// The entities to listen to, each by a task of its own.
    pub ids: Vec<EntityId>,
    pub row_index: RowIndex,
}

/// What a bridge for this dashboard starts with.
pub fn plan_bridge(dashboard: &Dashboard) -> (r: BridgePlan)
    ensures
        id_texts(r.ids@) == first_seen(named_ids(dashboard.widgets())),
        r.row_index.indexes(*dashboard),
        id_texts(r.ids@).no_duplicates(),
        forall|i: int|
            0 <= i < dashboard.widgets().len() && (
            #[trigger] dashboard.widgets()[i]).entity is Some ==> id_texts(r.ids@).contains(
                dashboard.widgets()[i].entity.unwrap()@,
            ),
{
    proof {
        each_id_is_subscribed_once(named_ids(dashboard.widgets()));
        assert forall|i: int|
            0 <= i < dashboard.widgets().len() && (
            #[trigger] dashboard.widgets()[i]).entity is Some implies first_seen(
            named_ids(dashboard.widgets()),
        ).contains(dashboard.widgets()[i].entity.unwrap()@) by {
            ids_are_named_in_document_order(dashboard.widgets(), i);
        }
    }
    let raw: Vec<EntityId> = collect_visible_entity_ids(dashboard);
    BridgePlan { ids: unique_entity_ids(&raw), row_index: build_row_index(dashboard) }
}

/// The entities that changed since the last flush. However often one changes, it
/// is there once.
#[derive(Debug)]
pub struct PendingMap {
    ids: Vec<EntityId>,
}

impl View for PendingMap {
    type V = Set<Seq<char>>;

    closed spec fn view(&self) -> Set<Seq<char>> {
        id_texts(self.ids@).to_set()
    }
}

impl PendingMap {
    /// No id occurs twice.
    #[verifier::type_invariant]
    spec fn wf(self) -> bool {
        id_texts(self.ids@).no_duplicates()
    }

    /// Nothing has changed.
    pub fn new() -> (r: PendingMap)
        ensures
            r@ == Set::<Seq<char>>::empty(),
    {
        let ids: Vec<EntityId> = Vec::new();
        assert(id_texts(ids@).to_set() =~= Set::empty());
        PendingMap { ids }
    }

    /// Marks an entity as changed.
    pub fn insert(&mut self, id: EntityId)
        ensures
            final(self)@ == old(self)@.insert(id@),
    {
        let mut held: PendingMap = PendingMap::new();
        core::mem::swap(self, &mut held);
        proof {
            use_type_invariant(&held);
        }
        let mut ids: Vec<EntityId> = held.ids;
        let ghost texts = id_texts(ids@);
        if holds_id(&ids, &id) {
            assert(texts.to_set().insert(id@) =~= texts.to_set());
        } else {
            proof {
                let next = id_texts(ids@.push(id));
                assert(next =~= texts.push(id@));
                assert(next.no_duplicates());
                assert(next.to_set() =~= texts.to_set().insert(id@)) by {
                    assert forall|x: Seq<char>|
                        next.to_set().contains(x) <==> texts.to_set().insert(id@).contains(x) by {
                        if texts.contains(x) {
                            let j = texts.index_of(x);
                            assert(next[j] == x);
                        }
                        if x == id@ {
                            assert(next[texts.len() as int] == x);
                        }
                    }
                }
            }
            ids.push(id);
        }
        *self = PendingMap { ids };
    }

    /// Takes out all ids.
    fn drain(&mut self) -> (r: Vec<EntityId>)
        ensures
            id_texts(r@).no_duplicates(),
            id_texts(r@).to_set() == old(self)@,
            final(self)@ == Set::<Seq<char>>::empty(),
    {
        let mut held: PendingMap = PendingMap::new();
        core::mem::swap(self, &mut held);
        proof {
            use_type_invariant(&held);
        }
        held.ids
    }
}

/// Takes out all changed entities, each one once, in no particular order.
pub fn drain_pending(pending: &mut PendingMap) -> (r: Vec<EntityId>)
    ensures
        id_texts(r@).no_duplicates(),
        id_texts(r@).to_set() == old(pending)@,
        final(pending)@ == Set::<Seq<char>>::empty(),
{
    pending.drain()
}

/// What a listener hears.
#[derive(Debug)]
pub enum SubscriberEvent {
    /// An entity changed.
    Updated(EntityId),
    /// Some changes were missed.
    Lagged,
    /// There will be no more changes.
    Closed,
}

/// What a listener does next.
#[derive(Clone, Copy, Debug, PartialEq, Eq, Structural)]
pub enum SubscriberAction {
    Listen,
    Resubscribe,
    Stop,
}

/// The changed entities after a listener heard something.
pub open spec fn after_hearing(
    pending: Set<Seq<char>>,
    event: SubscriberEvent,
    subscribed: Seq<EntityId>,
) -> Set<Seq<char>> {
    match event {
        SubscriberEvent::Updated(id) => pending.insert(id@),
        SubscriberEvent::Lagged => pending.union(id_texts(subscribed).to_set()),
        SubscriberEvent::Closed => pending,
    }
}

/// The changed entities after a flush: none, unless drawing was held back.
pub open spec fn after_flush(pending: Set<Seq<char>>, state: ConnectionState) -> Set<Seq<char>> {
    if gated(state) {
        pending
    } else {
        Set::empty()
    }
}

/// A listener's step. Where changes were missed, every entity of the dashboard
/// counts as changed.
pub fn subscriber_step(
    event: SubscriberEvent,
    subscribed: &Vec<EntityId>,
    pending: &mut PendingMap,
) -> (r: SubscriberAction)
    ensures
        r == match event {
            SubscriberEvent::Updated(_) => SubscriberAction::Listen,
            SubscriberEvent::Lagged => SubscriberAction::Resubscribe,
            SubscriberEvent::Closed => SubscriberAction::Stop,
        },
        final(pending)@ == after_hearing(old(pending)@, event, subscribed@),
        event is Updated ==> r is Listen,
        event is Lagged ==> r is Resubscribe,
        event is Closed ==> r is Stop && final(pending)@ == old(pending)@,
        event matches SubscriberEvent::Updated(id) ==> forall|x: Seq<char>| #[trigger]
            final(pending)@.contains(x) <==> old(pending)@.contains(x) || x == id.text@,
        event is Lagged ==> forall|x: Seq<char>| #[trigger]
            final(pending)@.contains(x) <==> old(pending)@.contains(x) || exists|i: int|
                0 <= i < subscribed@.len() && (#[trigger] subscribed@[i]).text@ == x,
{
    match event {
        SubscriberEvent::Updated(id) => {
            pending.insert(id);
            SubscriberAction::Listen
        },
        SubscriberEvent::Lagged => {
            let ghost all = id_texts(subscribed@);
            let mut i: usize = 0;
            assert(pending@ =~= old(pending)@.union(all.take(0).to_set()));
            while i < subscribed.len()
                invariant
                    i <= subscribed@.len(),
                    all == id_texts(subscribed@),
                    pending@ == old(pending)@.union(all.take(i as int).to_set()),
                decreases subscribed@.len() - i,
            {
                let ghost before = pending@;
                pending.insert(subscribed[i].clone());
                proof {
                    let part = all.take(i + 1);
                    let id = subscribed@[i as int]@;
                    assert(part[i as int] == id);
                    assert forall|x: Seq<char>| part.contains(x) <==> x == id || all.take(
                        i as int,
                    ).contains(x) by {
                        if part.contains(x) && x != id {
                            let j = choose|j: int| 0 <= j < part.len() && part[j] == x;
                            assert(all.take(i as int)[j] == x);
                        }
                        if all.take(i as int).contains(x) {
                            let j = choose|j: int|
                                0 <= j < i && all.take(i as int)[j] == x;
                            assert(part[j] == x);
                        }
                    }
                    assert(pending@ =~= old(pending)@.union(part.to_set()));
                }
                i = i + 1;
            }
            proof {
                assert(all.take(i as int) =~= all);
                assert forall|x: Seq<char>| #[trigger] pending@.contains(x) <==> old(
                    pending,
                )@.contains(x) || exists|j: int|
                    0 <= j < subscribed@.len() && (#[trigger] subscribed@[j]).text@ == x by {
                    if all.contains(x) {
                        let j = all.index_of(x);
                        assert(subscribed@[j].text@ == x);
                    }
                    if exists|j: int|
                        0 <= j < subscribed@.len() && (#[trigger] subscribed@[j]).text@ == x {
                        let j = choose|j: int|
                            0 <= j < subscribed@.len() && (#[trigger] subscribed@[j]).text@ == x;
                        assert(all[j] == x);
                    }
                }
            }
            SubscriberAction::Resubscribe
        },
        SubscriberEvent::Closed => SubscriberAction::Stop,
    }
}

/// A change of one row.
#[derive(Debug, PartialEq, Eq)]
pub struct RowUpdate {
    pub kind: TileKind,
    pub row_index: usize,
    pub state: String,
}

impl Clone for RowUpdate {
    fn clone(&self) -> (r: RowUpdate)
        ensures
            r == *self,
    {
        RowUpdate { kind: self.kind, row_index: self.row_index, state: self.state.clone() }
    }
}

/// What a change of one row says.
pub struct RowChange {
    pub kind: TileKind,
    pub row: int,
    pub state: Seq<char>,
}

impl View for RowUpdate {
    type V = RowChange;

    open spec fn view(&self) -> RowChange {
        RowChange { kind: self.kind, row: self.row_index as int, state: self.state@ }
    }
}

/// What some changes say.
pub open spec fn changes(updates: Seq<RowUpdate>) -> Seq<RowChange> {
    Seq::new(updates.len(), |i: int| updates[i]@)
}

/// The state of an entity at the moment of a flush, where it is known.
#[derive(Debug)]
pub struct EntityRead {
    pub id: EntityId,
    pub state: Option<String>,
}

/// The state that is drawn.
pub open spec fn drawn_state(state: Option<Seq<char>>) -> Seq<char> {
    match state {
        Some(s) => s,
        None => "unavailable"@,
    }
}

/// The state of every row goes to `state`.
pub open spec fn rows_to(rows: Seq<(TileKind, int)>, state: Seq<char>) -> Seq<RowChange> {
    Seq::new(rows.len(), |i: int| RowChange { kind: rows[i].0, row: rows[i].1, state })
}

/// The changes for some entities: all rows of the first, then all of the second,
/// and so on.
pub open spec fn changes_for(index: RowIndex, reads: Seq<EntityRead>) -> Seq<RowChange>
    decreases reads.len(),
{
    if reads.len() == 0 {
        Seq::empty()
    } else {
        let last = reads.last();
        changes_for(index, reads.drop_last()) + rows_to(
            index.rows(last.id@),
            drawn_state(opt_text(last.state)),
        )
    }
}

/// The first step of a flush: the entities to read. While drawing is held back
/// there are none, and nothing is forgotten.
pub fn flush_start(state: ConnectionState, pending: &mut PendingMap) -> (r: Vec<EntityId>)
    ensures
        id_texts(r@).no_duplicates(),
        gated(state) ==> r@.len() == 0,
        !gated(state) ==> id_texts(r@).to_set() == old(pending)@,
        final(pending)@ == after_flush(old(pending)@, state),
        state is Reconnecting || state is Failed ==> r@.len() == 0 && final(pending)@
            == old(pending)@,
        !(state is Reconnecting || state is Failed) ==> final(pending)@ == Set::<Seq<char>>::empty()
            && id_texts(r@).to_set() == old(pending)@,
{
    if is_writes_gated(state) {
        Vec::new()
    } else {
        drain_pending(pending)
    }
}

/// The second step of a flush: the rows to change.
pub fn flush_updates(index: &RowIndex, reads: &Vec<EntityRead>) -> (r: Vec<RowUpdate>)
    ensures
        changes(r@) == changes_for(*index, reads@),
{
    let mut out: Vec<RowUpdate> = Vec::new();
    let mut i: usize = 0;
    proof {
        assert(reads@.take(0) =~= Seq::empty());
        assert(changes(out@) =~= Seq::empty());
    }
    while i < reads.len()
        invariant
            i <= reads@.len(),
            changes(out@) == changes_for(*index, reads@.take(i as int)),
        decreases reads@.len() - i,
    {
        let read: &EntityRead = &reads[i];
        let state: String = match &read.state {
            Some(s) => s.clone(),
            None => "unavailable".to_owned(),
        };
        let ghost before = changes(out@);
        let ghost wanted = rows_to(index.rows(read.id@), state@);
        let rows: &[(TileKind, usize)] = index.rows_for(&read.id);
        let mut j: usize = 0;
        proof {
            assert(wanted.len() == rows@.len());
            assert(changes(out@) =~= before + wanted.take(0));
        }
        while j < rows.len()
            invariant
                j <= rows@.len() == wanted.len(),
                crate::row_index::row_pairs(rows@) == index.rows(read.id@),
                wanted == rows_to(index.rows(read.id@), state@),
                changes(out@) == before + wanted.take(j as int),
            decreases rows@.len() - j,
        {
            let ghost was = out@;
            let pair: (TileKind, usize) = rows[j];
            out.push(RowUpdate { kind: pair.0, row_index: pair.1, state: state.clone() });
            proof {
                assert(crate::row_index::row_pairs(rows@)[j as int] == (pair.0, pair.1 as int));
                assert(out@.last()@ == wanted[j as int]);
                assert(changes(out@) =~= changes(was).push(wanted[j as int]));
                assert(changes(out@) =~= before + wanted.take(j + 1));
            }
            j = j + 1;
        }
        proof {
            assert(wanted.take(j as int) =~= wanted);
            assert(reads@.take(i + 1).drop_last() =~= reads@.take(i as int));
            assert(reads@.take(i + 1).last() == *read);
        }
        i = i + 1;
    }
    assert(reads@.take(i as int) =~= reads@);
    out
}

/// The last step of a flush: the changes to draw, if any. The connection may have
/// been lost since the first step: then nothing is drawn.
pub fn flush_finish(state_at_write: ConnectionState, updates: Vec<RowUpdate>) -> (r: Option<
    Vec<RowUpdate>,
>)
    ensures
        r == if updates@.len() == 0 || gated(state_at_write) {
            None
        } else {
            Some(updates)
        },
        r is Some <==> updates@.len() > 0 && !(state_at_write is Reconnecting
            || state_at_write is Failed),
        r matches Some(u) ==> u == updates,
{
    if updates.len() == 0 || is_writes_gated(state_at_write) {
        None
    } else {
        Some(updates)
    }
}

/// What follows from a state of the connection.
#[derive(Clone, Copy, Debug, PartialEq, Eq, Structural)]
pub struct WatchPlan {
    pub banner_visible: bool,
    pub resync: bool,
}

/// The banner shows while drawing is held back; once the connection is up, all is
/// drawn anew.
pub fn watch_plan(state: ConnectionState) -> (r: WatchPlan)
    ensures
        r.banner_visible == gated(state),
        r.resync == (state == ConnectionState::Live),
        r.banner_visible <==> (state is Reconnecting || state is Failed),
        r.resync <==> state is Live,
{
    WatchPlan {
        banner_visible: is_writes_gated(state),
        resync: match state {
            ConnectionState::Live => true,
            _ => false,
        },
    }
}

/// Everything that is drawn anew, and the index that fits it.
pub struct Resync {
    pub tiles: Vec<TileVM>,
    pub row_index: RowIndex,
}

/// Builds everything anew. Tiles and index are of one dashboard, so that the rows
/// of the one are those of the other.
pub fn resync(store: &MemoryStore, dashboard: &Dashboard) -> (r: Resync)
    ensures
        crate::kinds::shown(r.tiles@) == tiles_for(store@, dashboard.widgets()),
        r.row_index.indexes(*dashboard),
        r.tiles@.len() == dashboard.widgets().len(),
        forall|i: int|
            0 <= i < r.tiles@.len() ==> (#[trigger] r.tiles@[i])@ == tile_for(
                store@,
                dashboard.widgets()[i],
            ),
{
    let tiles: Vec<TileVM> = build_tiles(store, dashboard);
    assert(crate::kinds::shown(tiles@) =~= tiles_for(store@, dashboard.widgets()));
    Resync { tiles, row_index: build_row_index(dashboard) }
}

/// Drawing a change of one row is as good as drawing everything anew: the state
/// that the flush gives for row `j` of an entity is the state that the row has
/// after a rebuild. (A power-flow row has no state.)
pub proof fn row_change_agrees_with_rebuild(
    entities: Map<Seq<char>, EntityModel>,
    widgets: Seq<Widget>,
    split: SplitTileVms,
    id: Seq<char>,
    j: int,
) -> (i: int)
    requires
        split.holds(tiles_for(entities, widgets)),
        0 <= j < routed(widgets, id).len(),
        routed(widgets, id)[j].0 != TileKind::PowerFlow,
    ensures
        0 <= i < widgets.len(),
        split.shows(
            routed(widgets, id)[j].0,
            routed(widgets, id)[j].1,
            tile_for(entities, widgets[i]),
        ),
        tile_for(entities, widgets[i]).state == drawn_state(
            if entities.contains_key(id) {
                Some(entities[id].state)
            } else {
                None
            },
        ),
{
    let i = crate::row_index::routed_row_belongs_to_a_widget(widgets, id, j);
    crate::row_index::rows_do_not_depend_on_entities(entities, widgets);
    crate::split::split_shows_each_tile_at_its_row(split, tiles_for(entities, widgets), i);
    i
}

/// Something that happens to the changed entities.
pub enum PendingEvent {
    Heard(SubscriberEvent),
    Flushed(ConnectionState),
}

/// The changed entities after some events.
pub open spec fn pending_after(
    pending: Set<Seq<char>>,
    events: Seq<PendingEvent>,
    subscribed: Seq<EntityId>,
) -> Set<Seq<char>>
    decreases events.len(),
{
    if events.len() == 0 {
        pending
    } else {
        let before = pending_after(pending, events.drop_last(), subscribed);
        match events.last() {
            PendingEvent::Heard(event) => after_hearing(before, event, subscribed),
            PendingEvent::Flushed(state) => after_flush(before, state),
        }
    }
}

/// Event `e` reports that entity `id` may have changed.
pub open spec fn reports(e: PendingEvent, id: Seq<char>, subscribed: Seq<EntityId>) -> bool {
    match e {
        PendingEvent::Heard(SubscriberEvent::Updated(changed)) => changed@ == id,
        PendingEvent::Heard(SubscriberEvent::Lagged) => id_texts(subscribed).contains(id),
        _ => false,
    }
}

/// A reported change is not forgotten: the entity stays among the changed ones
/// until a flush that is not held back.
pub proof fn change_waits_for_a_flush(
    pending: Set<Seq<char>>,
    events: Seq<PendingEvent>,
    subscribed: Seq<EntityId>,
    i: int,
    id: Seq<char>,
)
    requires
        0 <= i < events.len(),
        reports(events[i], id, subscribed),
        forall|k: int|
            i < k < events.len() ==> ((#[trigger] events[k]) matches PendingEvent::Flushed(state)
                ==> gated(state)),
    ensures
        pending_after(pending, events, subscribed).contains(id),
    decreases events.len(),
{
    if i < events.len() - 1 {
        let rest = events.drop_last();
        assert forall|k: int| i < k < rest.len() implies ((
        #[trigger] rest[k]) matches PendingEvent::Flushed(state) ==> gated(state)) by {
            assert(rest[k] == events[k]);
        }
        change_waits_for_a_flush(pending, rest, subscribed, i, id);
    }
}

/// A flush reaches every row of an entity that changed.
pub proof fn flush_reaches_every_row(index: RowIndex, reads: Seq<EntityRead>, n: int, j: int)
    requires
        0 <= n < reads.len(),
        0 <= j < index.rows(reads[n].id@).len(),
    ensures
        changes_for(index, reads).contains(
            RowChange {
                kind: index.rows(reads[n].id@)[j].0,
                row: index.rows(reads[n].id@)[j].1,
                state: drawn_state(opt_text(reads[n].state)),
            },
        ),
    decreases reads.len(),
{
    let last = reads.last();
    let before = changes_for(index, reads.drop_last());
    let added = rows_to(index.rows(last.id@), drawn_state(opt_text(last.state)));
    let change = RowChange {
        kind: index.rows(reads[n].id@)[j].0,
        row: index.rows(reads[n].id@)[j].1,
        state: drawn_state(opt_text(reads[n].state)),
    };
    if n == reads.len() - 1 {
        assert(added[j] == change);
        assert((before + added)[before.len() + j] == change);
    } else {
        flush_reaches_every_row(index, reads.drop_last(), n, j);
        let i = choose|i: int| 0 <= i < before.len() && before[i] == change;
        assert((before + added)[i] == change);
    }
}

/// A flush touches no row but those of the entities that changed.
pub proof fn flush_touches_no_other_row(index: RowIndex, reads: Seq<EntityRead>, i: int) -> (r: (
    int,
    int,
))
    requires
        0 <= i < changes_for(index, reads).len(),
    ensures
        0 <= r.0 < reads.len(),
        0 <= r.1 < index.rows(reads[r.0].id@).len(),
        changes_for(index, reads)[i] == (RowChange {
            kind: index.rows(reads[r.0].id@)[r.1].0,
            row: index.rows(reads[r.0].id@)[r.1].1,
            state: drawn_state(opt_text(reads[r.0].state)),
        }),
    decreases reads.len(),
{
    let before = changes_for(index, reads.drop_last());
    if i < before.len() {
        flush_touches_no_other_row(index, reads.drop_last(), i)
    } else {
        (reads.len() - 1, i - before.len())
    }
}

/// Every entity that has a row is listened to.
pub proof fn every_routed_entity_is_subscribed(widgets: Seq<Widget>, id: Seq<char>)
    requires
        routed(widgets, id).len() > 0,
    ensures
        first_seen(named_ids(widgets)).contains(id),
{
    lemma_routed_is_named(widgets, id);
    each_id_is_subscribed_once(named_ids(widgets));
}

proof fn lemma_routed_is_named(widgets: Seq<Widget>, id: Seq<char>)
    requires
        routed(widgets, id).len() > 0,
    ensures
        named_ids(widgets).contains(id),
    decreases widgets.len(),
{
    let rest = widgets.drop_last();
    if id.len() > 0 && widgets.last().bound_id() == id {
        assert(named_ids(widgets).last() == id);
    } else {
        lemma_routed_is_named(rest, id);
        let j = choose|j: int| 0 <= j < named_ids(rest).len() && named_ids(rest)[j] == id;
        assert(named_ids(widgets)[j] == id);
    }
}

/// The ids of a dashboard are collected in document order: that of a widget stands
/// behind those of the widgets before it.
pub proof fn ids_are_named_in_document_order(widgets: Seq<Widget>, i: int)
    requires
        0 <= i < widgets.len(),
        widgets[i].entity is Some,
    ensures
        named_ids(widgets.take(i)).len() < named_ids(widgets).len(),
        named_ids(widgets)[named_ids(widgets.take(i)).len() as int]
            == widgets[i].entity.unwrap()@,
        named_ids(widgets).contains(widgets[i].entity.unwrap()@),
    decreases widgets.len(),
{
    let rest = widgets.drop_last();
    if i < widgets.len() - 1 {
        ids_are_named_in_document_order(rest, i);
        assert(rest.take(i) =~= widgets.take(i));
    } else {
        assert(widgets.take(i) =~= rest);
    }
    assert(named_ids(widgets)[named_ids(widgets.take(i)).len() as int]
        == widgets[i].entity.unwrap()@);
}

/// A dashboard names as many ids as it has widgets with an entity: one that is named
/// twice counts twice.
pub proof fn each_naming_widget_counts(widgets: Seq<Widget>)
    ensures
        Set::new(|i: int| 0 <= i < widgets.len() && widgets[i].entity is Some).finite(),
        named_ids(widgets).len() == Set::new(
            |i: int| 0 <= i < widgets.len() && widgets[i].entity is Some,
        ).len(),
    decreases widgets.len(),
{
    let all = Set::new(|i: int| 0 <= i < widgets.len() && widgets[i].entity is Some);
    if widgets.len() == 0 {
        assert(all =~= Set::empty());
    } else {
        let rest = widgets.drop_last();
        let before = Set::new(|i: int| 0 <= i < rest.len() && rest[i].entity is Some);
        each_naming_widget_counts(rest);
        if widgets.last().entity is Some {
            assert(all =~= before.insert(widgets.len() - 1));
        } else {
            assert(all =~= before);
        }
    }
}

/// Ids are subscribed to in the order in which they come up: those of the first ids
/// come first, whatever follows.
pub proof fn subscriptions_keep_the_order(ids: Seq<Seq<char>>, n: int)
    requires
        0 <= n <= ids.len(),
    ensures
        first_seen(ids.take(n)).len() <= first_seen(ids).len(),
        first_seen(ids).take(first_seen(ids.take(n)).len() as int) == first_seen(ids.take(n)),
    decreases ids.len(),
{
    let part = first_seen(ids.take(n));
    if n == ids.len() {
        assert(ids.take(n) =~= ids);
        assert(part.take(part.len() as int) =~= part);
    } else {
        let rest = ids.drop_last();
        subscriptions_keep_the_order(rest, n);
        assert(rest.take(n) =~= ids.take(n));
        assert(first_seen(ids).take(part.len() as int) =~= first_seen(rest).take(
            part.len() as int,
        ));
    }
}

/// What is looked up is named by a widget: as its entity, or as that of a lane.
pub proof fn lookups_are_named_by_widgets(widgets: Seq<Widget>, id: Seq<char>) -> (i: int)
    requires
        lookups(widgets).contains(id),
    ensures
        0 <= i < widgets.len(),
        widgets[i].bound_id() == id || (widgets[i].options matches Some(
            WidgetOptions::PowerFlow {
                grid_entity,
                solar_entity,
                battery_entity,
                battery_soc_entity,
                home_entity,
            },
        ) && (grid_entity@ == id || opt_text(solar_entity) == Some(id) || opt_text(battery_entity)
            == Some(id) || opt_text(battery_soc_entity) == Some(id) || opt_text(home_entity)
            == Some(id))),
    decreases widgets.len(),
{
    let rest = widgets.drop_last();
    let (before, own) = (lookups(rest), widget_lookups(widgets.last()));
    let j = lookups(widgets).index_of(id);
    if j < before.len() {
        assert(before[j] == id);
        lookups_are_named_by_widgets(rest, id)
    } else {
        assert(own[j - before.len()] == id);
        widgets.len() - 1
    }
}

/// A flush draws the state that was read of an entity, and `unavailable` where none
/// was. The changes of an entity stand behind those of the entities read before it,
/// in the order of its rows.
pub proof fn changes_follow_the_reads(index: RowIndex, reads: Seq<EntityRead>, n: int, j: int)
    requires
        0 <= n < reads.len(),
        0 <= j < index.rows(reads[n].id.text@).len(),
    ensures
        ({
            let at = changes_for(index, reads.take(n)).len() + j;
            let change = changes_for(index, reads)[at as int];
            let row = index.rows(reads[n].id.text@)[j];
            &&& at < changes_for(index, reads).len()
            &&& change.kind == row.0
            &&& change.row == row.1
            &&& reads[n].state matches Some(s) ==> change.state == s@
            &&& reads[n].state is None ==> change.state == "unavailable"@
        }),
    decreases reads.len(),
{
    let rest = reads.drop_last();
    if n < reads.len() - 1 {
        changes_follow_the_reads(index, rest, n, j);
        assert(rest.take(n) =~= reads.take(n));
    } else {
        assert(reads.take(n) =~= rest);
    }
}

/// A flush makes one change for each row of each entity that was read.
pub proof fn one_change_per_row(index: RowIndex, reads: Seq<EntityRead>, n: int)
    requires
        0 <= n < reads.len(),
    ensures
        changes_for(index, reads.take(n + 1)).len() == changes_for(index, reads.take(n)).len()
            + index.rows(reads[n].id.text@).len(),
        changes_for(index, reads.take(0)).len() == 0,
{
    assert(reads.take(n + 1).drop_last() =~= reads.take(n));
    assert(reads.take(n + 1).last() == reads[n]);
}

/// Nothing is marked as changed but what was before, or what an event reported.
pub proof fn only_reported_changes_wait(
    pending: Set<Seq<char>>,
    events: Seq<PendingEvent>,
    subscribed: Seq<EntityId>,
    id: Seq<char>,
)
    requires
        pending_after(pending, events, subscribed).contains(id),
    ensures
        pending.contains(id) || exists|i: int|
            0 <= i < events.len() && reports(#[trigger] events[i], id, subscribed),
    decreases events.len(),
{
    if events.len() > 0 {
        let rest = events.drop_last();
        if pending_after(pending, rest, subscribed).contains(id) {
            only_reported_changes_wait(pending, rest, subscribed, id);
            if !pending.contains(id) {
                let i = choose|i: int|
                    0 <= i < rest.len() && reports(#[trigger] rest[i], id, subscribed);
                assert(reports(events[i], id, subscribed));
            }
        } else {
            assert(reports(events[events.len() - 1], id, subscribed));
        }
    }
}

/// A flush that is not held back leaves nothing to flush, and one that is held back
/// leaves everything.
pub proof fn flush_takes_all_or_nothing(pending: Set<Seq<char>>, state: ConnectionState)
    ensures
        state is Reconnecting || state is Failed ==> after_flush(pending, state) == pending,
        !(state is Reconnecting || state is Failed) ==> after_flush(pending, state) == Set::<
            Seq<char>,
        >::empty(),
{
}

/// A change of a row says what its fields say.
pub proof fn row_update_says_its_fields(u: RowUpdate)
    ensures
        u@.kind == u.kind,
        u@.row == u.row_index,
        u@.state == u.state@,
{
}

} // verus!
