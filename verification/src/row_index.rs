//! Which rows show which entity.
use crate::entity::{EntityId, EntityModel};
use crate::kinds::{kind_count, lemma_count_bound, row_of, tile_kinds, widget_kinds, KindCursors};
use crate::schema::{Dashboard, Widget};
use crate::split::{split_shows_each_tile_at_its_row, SplitTileVms};
use crate::tile::{kind_of_widget, tile_kind_for_widget, TileKind};
use crate::tiles::{tile_for, tiles_for};
use vstd::prelude::*;
use vstd::std_specs::cmp::PartialEqSpec;

verus! {

/// The rows that show entity `id`, in document order: for each widget bound to it,
/// the widget's kind and its row in the model of this kind.
pub open spec fn routed(widgets: Seq<Widget>, id: Seq<char>) -> Seq<(TileKind, int)>
    decreases widgets.len(),
{
    if widgets.len() == 0 {
        Seq::empty()
    } else {
        let before = routed(widgets.drop_last(), id);
        let kind = kind_of_widget(widgets.last().widget_type);
        if id.len() > 0 && widgets.last().bound_id() == id {
            before.push((kind, kind_count(widget_kinds(widgets.drop_last()), kind) as int))
        } else {
            before
        }
    }
}

/// How many widgets are bound to an entity.
pub open spec fn bound_count(widgets: Seq<Widget>) -> nat
    decreases widgets.len(),
{
    if widgets.len() == 0 {
        0
    } else {
        bound_count(widgets.drop_last()) + if widgets.last().bound_id().len() > 0 {
            1nat
        } else {
            0
        }
    }
}

/// Pairs of a kind and a row, with the row as a number.
pub open spec fn row_pairs(rows: Seq<(TileKind, usize)>) -> Seq<(TileKind, int)> {
    Seq::new(rows.len(), |i: int| (rows[i].0, rows[i].1 as int))
}

/// The rows of one entity.
#[derive(Debug)]
struct RowEntry {
    id: EntityId,
    rows: Vec<(TileKind, usize)>,
}

spec fn entry_ids(entries: Seq<RowEntry>) -> Seq<Seq<char>> {
    Seq::new(entries.len(), |i: int| entries[i].id@)
}

spec fn rows_in(entries: Seq<RowEntry>, id: Seq<char>) -> Seq<(TileKind, int)> {
    if entry_ids(entries).contains(id) {
        row_pairs(entries[entry_ids(entries).index_of(id)].rows@)
    } else {
        Seq::empty()
    }
}

spec fn rows_total(entries: Seq<RowEntry>) -> nat
    decreases entries.len(),
{
    if entries.len() == 0 {
        0
    } else {
        rows_total(entries.drop_last()) + entries.last().rows@.len()
    }
}

proof fn lemma_rows_total_update(entries: Seq<RowEntry>, i: int, e: RowEntry)
    requires
        0 <= i < entries.len(),
    ensures
        rows_total(entries.update(i, e)) == rows_total(entries) - entries[i].rows@.len()
            + e.rows@.len(),
    decreases entries.len(),
{
    let next = entries.update(i, e);
    if i < entries.len() - 1 {
        assert(next.drop_last() =~= entries.drop_last().update(i, e));
        lemma_rows_total_update(entries.drop_last(), i, e);
    } else {
        assert(next.drop_last() =~= entries.drop_last());
    }
}

proof fn lemma_rows_total_prefix(entries: Seq<RowEntry>, n: int)
    requires
        0 <= n <= entries.len(),
    ensures
        rows_total(entries.take(n)) <= rows_total(entries),
    decreases entries.len(),
{
    if n < entries.len() {
        assert(entries.drop_last().take(n) =~= entries.take(n));
        lemma_rows_total_prefix(entries.drop_last(), n);
    } else {
        assert(entries.take(n) =~= entries);
    }
}

/// The rows of every entity that is on the dashboard.
#[derive(Debug)]
pub struct RowIndex {
    by_entity: Vec<RowEntry>,
}

impl RowIndex {
    /// No entity occurs twice, and the rows can be counted.
    #[verifier::type_invariant]
    spec fn wf(self) -> bool {
        entry_ids(self.by_entity@).no_duplicates() && rows_total(self.by_entity@) <= usize::MAX
    }

    /// The rows that show entity `id`.
    pub closed spec fn rows(self, id: Seq<char>) -> Seq<(TileKind, int)> {
        rows_in(self.by_entity@, id)
    }

    /// The entities that have rows.
    pub closed spec fn ids(self) -> Set<Seq<char>> {
        entry_ids(self.by_entity@).to_set()
    }

    /// The number of rows of all entities together.
    pub closed spec fn total(self) -> nat {
        rows_total(self.by_entity@)
    }

    /// The index is that of `dashboard`.
    pub open spec fn indexes(self, dashboard: Dashboard) -> bool {
        &&& forall|id: Seq<char>| #[trigger] self.rows(id) == routed(dashboard.widgets(), id)
        &&& forall|id: Seq<char>| #[trigger]
            self.ids().contains(id) <==> routed(dashboard.widgets(), id).len() > 0
        &&& self.total() == bound_count(dashboard.widgets())
    }

    /// The rows that show an entity: none where it is not on the dashboard.
    pub fn rows_for(&self, id: &EntityId) -> (r: &[(TileKind, usize)])
        ensures
            row_pairs(r@) == self.rows(id@),
            r@.len() == self.rows(id.text@).len(),
            forall|i: int|
                0 <= i < r@.len() ==> (#[trigger] r@[i]).0 == self.rows(id.text@)[i].0 && r@[i].1
                    == self.rows(id.text@)[i].1,
    {
        proof {
            use_type_invariant(self);
        }
        let ghost ids = entry_ids(self.by_entity@);
        let mut i: usize = 0;
        while i < self.by_entity.len()
            invariant
                i <= self.by_entity@.len(),
                ids == entry_ids(self.by_entity@),
                ids.no_duplicates(),
                forall|j: int| 0 <= j < i ==> #[trigger] ids[j] != id@,
            decreases self.by_entity@.len() - i,
        {
            assert(ids[i as int] == self.by_entity@[i as int].id@);
            if self.by_entity[i].id.same(id) {
                assert(ids.contains(id@));
                assert(ids.index_of(id@) == i);
                proof {
                    let rows = self.by_entity@[i as int].rows@;
                    assert forall|j: int| 0 <= j < rows.len() implies (#[trigger] rows[j]).0
                        == row_pairs(rows)[j].0 && rows[j].1 == row_pairs(rows)[j].1 by {}
                }
                return self.by_entity[i].rows.as_slice();
            }
            i = i + 1;
        }
        assert(!ids.contains(id@));
        let none: &[(TileKind, usize)] = &[];
        assert(row_pairs(none@) =~= Seq::empty());
        none
    }

    /// Whether an entity has rows.
    fn has(&self, id: &EntityId) -> (r: bool)
        ensures
            r == self.ids().contains(id@),
    {
        let ghost ids = entry_ids(self.by_entity@);
        let mut i: usize = 0;
        while i < self.by_entity.len()
            invariant
                i <= self.by_entity@.len(),
                ids == entry_ids(self.by_entity@),
                forall|j: int| 0 <= j < i ==> #[trigger] ids[j] != id@,
            decreases self.by_entity@.len() - i,
        {
            assert(ids[i as int] == self.by_entity@[i as int].id@);
            if self.by_entity[i].id.same(id) {
                assert(ids.contains(id@));
                return true;
            }
            i = i + 1;
        }
        assert(!ids.contains(id@));
        false
    }

    /// The number of rows that show some entity.
    pub fn total_rows(&self) -> (r: usize)
        ensures
            r == self.total(),
    {
        proof {
            use_type_invariant(self);
        }
        let mut sum: usize = 0;
        let mut i: usize = 0;
        while i < self.by_entity.len()
            invariant
                i <= self.by_entity@.len(),
                rows_total(self.by_entity@) <= usize::MAX,
                sum == rows_total(self.by_entity@.take(i as int)),
            decreases self.by_entity@.len() - i,
        {
            proof {
                let next = self.by_entity@.take(i + 1);
                assert(next.drop_last() =~= self.by_entity@.take(i as int));
                lemma_rows_total_prefix(self.by_entity@, i + 1);
            }
            sum = sum + self.by_entity[i].rows.len();
            i = i + 1;
        }
        assert(self.by_entity@.take(i as int) =~= self.by_entity@);
        sum
    }

    /// The number of entities that have rows.
    pub fn entity_count(&self) -> (r: usize)
        ensures
            r == self.ids().len(),
    {
        proof {
            use_type_invariant(self);
            entry_ids(self.by_entity@).unique_seq_to_set();
        }
        self.by_entity.len()
    }
}

impl Default for RowIndex {
    /// An index without rows.
    fn default() -> (r: RowIndex)
        ensures
            forall|id: Seq<char>| #[trigger] r.rows(id) == Seq::<(TileKind, int)>::empty(),
            r.ids() == Set::<Seq<char>>::empty(),
            r.total() == 0,
    {
        let by_entity: Vec<RowEntry> = Vec::new();
        assert(entry_ids(by_entity@) =~= Seq::empty());
        assert(entry_ids(by_entity@).to_set() =~= Set::empty());
        RowIndex { by_entity }
    }
}

/// Two lists of entries say the same, one by one.
spec fn same_entries(a: Seq<RowEntry>, b: Seq<RowEntry>) -> bool {
    &&& a.len() == b.len()
    &&& forall|i: int|
        0 <= i < a.len() ==> (#[trigger] a[i]).id@ == b[i].id@ && a[i].rows@ == b[i].rows@
}

proof fn lemma_same_entries(a: Seq<RowEntry>, b: Seq<RowEntry>)
    requires
        same_entries(a, b),
    ensures
        entry_ids(a) == entry_ids(b),
        rows_total(a) == rows_total(b),
        forall|id: Seq<char>| #[trigger] rows_in(a, id) == rows_in(b, id),
    decreases a.len(),
{
    assert(entry_ids(a) =~= entry_ids(b));
    assert forall|id: Seq<char>| #[trigger] rows_in(a, id) == rows_in(b, id) by {
        if entry_ids(a).contains(id) {
            let i = entry_ids(a).index_of(id);
            assert(a[i].rows@ == b[i].rows@);
        }
    }
    if a.len() > 0 {
        lemma_same_entries(a.drop_last(), b.drop_last());
        assert(a[a.len() - 1].rows@ == b[a.len() - 1].rows@);
    }
}

impl Clone for RowIndex {
    fn clone(&self) -> (r: RowIndex)
        ensures
            forall|id: Seq<char>| #[trigger] r.rows(id) == self.rows(id),
            r.ids() == self.ids(),
            r.total() == self.total(),
    {
        proof {
            use_type_invariant(self);
        }
        let mut out: Vec<RowEntry> = Vec::new();
        let mut i: usize = 0;
        while i < self.by_entity.len()
            invariant
                i <= self.by_entity@.len(),
                same_entries(out@, self.by_entity@.take(i as int)),
            decreases self.by_entity@.len() - i,
        {
            let ghost before = out@;
            let entry: &RowEntry = &self.by_entity[i];
            out.push(RowEntry { id: entry.id.clone(), rows: copy_rows(&entry.rows) });
            assert forall|j: int| 0 <= j < out@.len() implies (#[trigger] out@[j]).id@
                == self.by_entity@.take(i + 1)[j].id@ && out@[j].rows@ == self.by_entity@.take(
                i + 1,
            )[j].rows@ by {
                if j < i {
                    assert(out@[j] == before[j]);
                    assert(self.by_entity@.take(i as int)[j] == self.by_entity@[j]);
                }
            }
            i = i + 1;
        }
        proof {
            assert(self.by_entity@.take(i as int) =~= self.by_entity@);
            lemma_same_entries(out@, self.by_entity@);
        }
        RowIndex { by_entity: out }
    }
}

fn copy_rows(rows: &Vec<(TileKind, usize)>) -> (r: Vec<(TileKind, usize)>)
    ensures
        r@ == rows@,
{
    let mut out: Vec<(TileKind, usize)> = Vec::new();
    let mut i: usize = 0;
    while i < rows.len()
        invariant
            i <= rows@.len(),
            out@ =~= rows@.take(i as int),
        decreases rows@.len() - i,
    {
        out.push(rows[i]);
        i = i + 1;
    }
    assert(rows@.take(i as int) =~= rows@);
    out
}

/// Whether both lists hold the same rows.
fn same_rows(a: &[(TileKind, usize)], b: &[(TileKind, usize)]) -> (r: bool)
    ensures
        r == (row_pairs(a@) == row_pairs(b@)),
{
    if a.len() != b.len() {
        assert(row_pairs(a@).len() != row_pairs(b@).len());
        return false;
    }
    let mut i: usize = 0;
    while i < a.len()
        invariant
            i <= a@.len() == b@.len(),
            forall|j: int| 0 <= j < i ==> #[trigger] row_pairs(a@)[j] == row_pairs(b@)[j],
        decreases a@.len() - i,
    {
        let x: (TileKind, usize) = a[i];
        let y: (TileKind, usize) = b[i];
        assert(row_pairs(a@)[i as int] == (x.0, x.1 as int));
        assert(row_pairs(b@)[i as int] == (y.0, y.1 as int));
        if x.0 != y.0 || x.1 != y.1 {
            return false;
        }
        i = i + 1;
    }
    assert(row_pairs(a@) =~= row_pairs(b@));
    true
}

impl PartialEq for RowIndex {
    /// Whether both index the same rows for the same entities, in whatever order the
    /// entities came up.
    fn eq(&self, other: &RowIndex) -> (r: bool) {
        proof {
            use_type_invariant(self);
            use_type_invariant(other);
            entry_ids(self.by_entity@).unique_seq_to_set();
            entry_ids(other.by_entity@).unique_seq_to_set();
        }
        let ghost ids = entry_ids(self.by_entity@);
        if self.by_entity.len() != other.by_entity.len() {
            return false;
        }
        let mut i: usize = 0;
        while i < self.by_entity.len()
            invariant
                i <= self.by_entity@.len(),
                ids == entry_ids(self.by_entity@),
                ids.no_duplicates(),
                forall|j: int|
                    0 <= j < i ==> other.ids().contains(#[trigger] ids[j]) && self.rows(ids[j])
                        == other.rows(ids[j]),
            decreases self.by_entity@.len() - i,
        {
            let entry: &RowEntry = &self.by_entity[i];
            proof {
                assert(ids[i as int] == entry.id@);
                assert(ids.contains(entry.id@));
                assert(ids.index_of(entry.id@) == i);
                assert(self.ids().contains(entry.id@));
                assert(self.rows(entry.id@) == row_pairs(entry.rows@));
            }
            if !other.has(&entry.id) {
                return false;
            }
            if !same_rows(entry.rows.as_slice(), other.rows_for(&entry.id)) {
                return false;
            }
            i = i + 1;
        }
        proof {
            assert forall|id: Seq<char>| self.ids().contains(id) implies other.ids().contains(
                id,
            ) by {
                let j = ids.index_of(id);
                assert(ids[j] == id);
            }
            vstd::set_lib::lemma_subset_equality(self.ids(), other.ids());
            assert forall|id: Seq<char>| #[trigger] self.rows(id) == other.rows(id) by {
                if ids.contains(id) {
                    let j = ids.index_of(id);
                    assert(ids[j] == id);
                } else {
                    assert(!self.ids().contains(id));
                    assert(!entry_ids(other.by_entity@).contains(id)) by {
                        assert(!other.ids().contains(id));
                    }
                }
            }
        }
        true
    }
}

impl vstd::std_specs::cmp::PartialEqSpecImpl for RowIndex {
    open spec fn obeys_eq_spec() -> bool {
        true
    }

    open spec fn eq_spec(&self, other: &RowIndex) -> bool {
        &&& self.ids() == other.ids()
        &&& forall|id: Seq<char>| #[trigger] self.rows(id) == other.rows(id)
    }
}

/// Adds a row to those of an entity.
fn record(entries: &mut Vec<RowEntry>, id: &String, kind: TileKind, row: usize)
    requires
        entry_ids(old(entries)@).no_duplicates(),
    ensures
        entry_ids(final(entries)@).no_duplicates(),
        forall|x: Seq<char>| #[trigger]
            rows_in(final(entries)@, x) == if x == id@ {
                rows_in(old(entries)@, x).push((kind, row as int))
            } else {
                rows_in(old(entries)@, x)
            },
        forall|x: Seq<char>| #[trigger]
            entry_ids(final(entries)@).contains(x) <==> x == id@ || entry_ids(
                old(entries)@,
            ).contains(x),
        rows_total(final(entries)@) == rows_total(old(entries)@) + 1,
{
    let ghost was = entries@;
    let ghost ids = entry_ids(was);
    let mut i: usize = 0;
    while i < entries.len()
        invariant
            i <= entries@.len(),
            entries@ == was,
            was == old(entries)@,
            ids == entry_ids(was),
            ids.no_duplicates(),
            forall|j: int| 0 <= j < i ==> #[trigger] ids[j] != id@,
        decreases entries@.len() - i,
    {
        assert(ids[i as int] == was[i as int].id@);
        if entries[i].id.text == *id {
            let ghost place = i as int;
            let entry: &mut RowEntry = &mut entries[i];
            entry.rows.push((kind, row));
            proof {
                let now = entries@;
                let e = now[place];
                assert(now =~= was.update(place, e));
                assert(e.id@ == id@ && e.rows@ == was[place].rows@.push((kind, row)));
                assert(entry_ids(now) =~= ids);
                lemma_rows_total_update(was, place, e);
                assert(ids.contains(id@));
                assert forall|x: Seq<char>| #[trigger] rows_in(now, x) == if x == id@ {
                    rows_in(was, x).push((kind, row as int))
                } else {
                    rows_in(was, x)
                } by {
                    if ids.contains(x) {
                        let j = ids.index_of(x);
                        assert(ids[j] == x);
                        if x == id@ {
                            assert(j == place);
                            assert(row_pairs(e.rows@) =~= row_pairs(was[place].rows@).push(
                                (kind, row as int),
                            ));
                        } else {
                            assert(j != place);
                        }
                    }
                }
            }
            return;
        }
        i = i + 1;
    }
    let mut rows: Vec<(TileKind, usize)> = Vec::new();
    rows.push((kind, row));
    entries.push(RowEntry { id: EntityId { text: id.clone() }, rows });
    proof {
        let now = entries@;
        assert(!ids.contains(id@));
        assert(entry_ids(now) =~= ids.push(id@));
        assert(now.drop_last() =~= was);
        assert(row_pairs(rows@) =~= Seq::empty().push((kind, row as int)));
        assert forall|x: Seq<char>| #[trigger]
            entry_ids(now).contains(x) <==> x == id@ || ids.contains(x) by {
            if ids.contains(x) {
                let j = ids.index_of(x);
                assert(entry_ids(now)[j] == x);
            }
            if x == id@ {
                assert(entry_ids(now)[ids.len() as int] == x);
            }
        }
        assert forall|x: Seq<char>| #[trigger] rows_in(now, x) == if x == id@ {
            rows_in(was, x).push((kind, row as int))
        } else {
            rows_in(was, x)
        } by {
            let all = entry_ids(now);
            if ids.contains(x) {
                let j = ids.index_of(x);
                assert(ids[j] == x);
                assert(all[j] == x);
                assert(all.index_of(x) == j);
            } else if x == id@ {
                assert(all[ids.len() as int] == x);
                assert(all.index_of(x) == ids.len());
            }
        }
    }
}

/// Indexes the rows of a dashboard. Every widget takes a row, whether or not it is
/// bound to an entity.
pub fn build_row_index(dashboard: &Dashboard) -> (r: RowIndex)
    ensures
        r.indexes(*dashboard),
{
    let widgets: Vec<&Widget> = dashboard.widget_list();
    let mut entries: Vec<RowEntry> = Vec::new();
    let mut cursors: KindCursors = KindCursors::new();
    let ghost all = dashboard.widgets();
    let mut i: usize = 0;
    proof {
        assert(all.take(0) =~= Seq::empty());
        assert(widget_kinds(all.take(0)) =~= Seq::empty());
        assert(entry_ids(entries@) =~= Seq::empty());
    }
    while i < widgets.len()
        invariant
            i <= widgets@.len() == all.len(),
            all == dashboard.widgets(),
            forall|j: int| 0 <= j < all.len() ==> *(#[trigger] widgets@[j]) == all[j],
            entry_ids(entries@).no_duplicates(),
            cursors.counted(widget_kinds(all.take(i as int))),
            rows_total(entries@) == bound_count(all.take(i as int)),
            rows_total(entries@) <= i,
            forall|x: Seq<char>| #[trigger]
                rows_in(entries@, x) == routed(all.take(i as int), x),
            forall|x: Seq<char>| #[trigger]
                entry_ids(entries@).contains(x) <==> routed(all.take(i as int), x).len() > 0,
        decreases widgets@.len() - i,
    {
        let widget: &Widget = widgets[i];
        let kind: TileKind = tile_kind_for_widget(&widget.widget_type);
        let ghost before = all.take(i as int);
        let ghost part = all.take(i + 1);
        proof {
            assert(part.drop_last() =~= before);
            assert(part.last() == *widget);
            assert(widget_kinds(part) =~= widget_kinds(before).push(kind));
            lemma_count_bound(widget_kinds(before), kind);
        }
        let row: usize = cursors.next(kind);
        match &widget.entity {
            Some(id) => if !id.as_str().is_empty() {
                record(&mut entries, id, kind, row);
            },
            None => {},
        }
        i = i + 1;
    }
    assert(all.take(i as int) =~= all);
    RowIndex { by_entity: entries }
}

/// Each routed row is the row of some widget bound to the entity.
pub proof fn routed_row_belongs_to_a_widget(
    widgets: Seq<Widget>,
    id: Seq<char>,
    j: int,
) -> (i: int)
    requires
        0 <= j < routed(widgets, id).len(),
    ensures
        0 <= i < widgets.len(),
        widgets[i].bound_id() == id,
        routed(widgets, id)[j] == (
            kind_of_widget(widgets[i].widget_type),
            row_of(widget_kinds(widgets), i),
        ),
    decreases widgets.len(),
{
    let rest = widgets.drop_last();
    let last = widgets.len() - 1;
    assert(widget_kinds(rest) =~= widget_kinds(widgets).take(last));
    if j < routed(rest, id).len() {
        let i = routed_row_belongs_to_a_widget(rest, id, j);
        assert(widget_kinds(rest).take(i) =~= widget_kinds(widgets).take(i));
        i
    } else {
        last
    }
}

/// Each widget that is bound to an entity has its row among those of the entity.
pub proof fn bound_widget_is_routed(widgets: Seq<Widget>, i: int) -> (j: int)
    requires
        0 <= i < widgets.len(),
        widgets[i].bound_id().len() > 0,
    ensures
        0 <= j < routed(widgets, widgets[i].bound_id()).len(),
        routed(widgets, widgets[i].bound_id())[j] == (
            kind_of_widget(widgets[i].widget_type),
            row_of(widget_kinds(widgets), i),
        ),
    decreases widgets.len(),
{
    let id = widgets[i].bound_id();
    let rest = widgets.drop_last();
    let last = widgets.len() - 1;
    assert(widget_kinds(rest) =~= widget_kinds(widgets).take(last));
    if i < last {
        let j = bound_widget_is_routed(rest, i);
        assert(widget_kinds(rest).take(i) =~= widget_kinds(widgets).take(i));
        j
    } else {
        routed(rest, id).len() as int
    }
}

/// The kinds of the tiles, and so all rows, follow from the widgets alone: no row
/// moves when an entity comes or goes.
pub proof fn rows_do_not_depend_on_entities(
    entities: Map<Seq<char>, EntityModel>,
    widgets: Seq<Widget>,
)
    ensures
        tile_kinds(tiles_for(entities, widgets)) == widget_kinds(widgets),
{
    assert(tile_kinds(tiles_for(entities, widgets)) =~= widget_kinds(widgets));
}

/// Whatever entities are known when the tiles are built, the row that the index
/// gives for an entity is the row of a tile bound to this entity.
pub proof fn index_leads_to_the_tile(
    entities: Map<Seq<char>, EntityModel>,
    widgets: Seq<Widget>,
    split: SplitTileVms,
    id: Seq<char>,
    j: int,
) -> (i: int)
    requires
        split.holds(tiles_for(entities, widgets)),
        0 <= j < routed(widgets, id).len(),
    ensures
        0 <= i < widgets.len(),
        widgets[i].bound_id() == id,
        0 <= routed(widgets, id)[j].1 < split.rows(routed(widgets, id)[j].0),
        split.shows(
            routed(widgets, id)[j].0,
            routed(widgets, id)[j].1,
            tile_for(entities, widgets[i]),
        ),
{
    let i = routed_row_belongs_to_a_widget(widgets, id, j);
    rows_do_not_depend_on_entities(entities, widgets);
    split_shows_each_tile_at_its_row(split, tiles_for(entities, widgets), i);
    i
}

/// The rows of an entity stand in the order of the widgets that show it: that of a
/// widget stands behind those of the widgets before it.
pub proof fn routed_rows_keep_the_order(widgets: Seq<Widget>, id: Seq<char>, i: int)
    requires
        0 <= i < widgets.len(),
        id.len() > 0,
        widgets[i].entity matches Some(s) && s@ == id,
    ensures
        routed(widgets.take(i), id).len() < routed(widgets, id).len(),
        routed(widgets, id)[routed(widgets.take(i), id).len() as int] == (
            kind_of_widget(widgets[i].widget_type),
            row_of(widget_kinds(widgets), i),
        ),
    decreases widgets.len(),
{
    let rest = widgets.drop_last();
    if i < widgets.len() - 1 {
        routed_rows_keep_the_order(rest, id, i);
        assert(rest.take(i) =~= widgets.take(i));
        assert(widget_kinds(rest).take(i) =~= widget_kinds(widgets).take(i));
    } else {
        assert(widgets.take(i) =~= rest);
        assert(widget_kinds(widgets).take(i) =~= widget_kinds(rest));
    }
}

/// An entity has as many rows as there are widgets bound to it.
pub proof fn entity_has_a_row_per_widget(widgets: Seq<Widget>, id: Seq<char>)
    requires
        id.len() > 0,
    ensures
        Set::new(
            |i: int| 0 <= i < widgets.len() && widgets[i].entity is Some && widgets[i].entity.unwrap()@
                == id,
        ).finite(),
        routed(widgets, id).len() == Set::new(
            |i: int| 0 <= i < widgets.len() && widgets[i].entity is Some && widgets[i].entity.unwrap()@
                == id,
        ).len(),
    decreases widgets.len(),
{
    let all = Set::new(
        |i: int| 0 <= i < widgets.len() && widgets[i].entity is Some && widgets[i].entity.unwrap()@
            == id,
    );
    if widgets.len() == 0 {
        assert(all =~= Set::empty());
    } else {
        let rest = widgets.drop_last();
        let before = Set::new(
            |i: int| 0 <= i < rest.len() && rest[i].entity is Some && rest[i].entity.unwrap()@ == id,
        );
        entity_has_a_row_per_widget(rest, id);
        if widgets.last().entity is Some && widgets.last().entity.unwrap()@ == id {
            assert(all =~= before.insert(widgets.len() - 1));
        } else {
            assert(all =~= before);
        }
    }
}

/// An index counts each widget that is bound to an entity once.
pub proof fn each_bound_widget_is_counted(widgets: Seq<Widget>)
    ensures
        Set::new(
            |i: int| 0 <= i < widgets.len() && widgets[i].entity is Some
                && widgets[i].entity.unwrap()@.len() > 0,
        ).finite(),
        bound_count(widgets) == Set::new(
            |i: int| 0 <= i < widgets.len() && widgets[i].entity is Some
                && widgets[i].entity.unwrap()@.len() > 0,
        ).len(),
    decreases widgets.len(),
{
    let all = Set::new(
        |i: int| 0 <= i < widgets.len() && widgets[i].entity is Some
            && widgets[i].entity.unwrap()@.len() > 0,
    );
    if widgets.len() == 0 {
        assert(all =~= Set::empty());
    } else {
        let rest = widgets.drop_last();
        let before = Set::new(
            |i: int| 0 <= i < rest.len() && rest[i].entity is Some && rest[i].entity.unwrap()@.len()
                > 0,
        );
        each_bound_widget_is_counted(rest);
        if widgets.last().entity is Some && widgets.last().entity.unwrap()@.len() > 0 {
            assert(all =~= before.insert(widgets.len() - 1));
        } else {
            assert(all =~= before);
        }
    }
}

/// Nothing is routed to an empty id.
pub proof fn empty_id_has_no_rows(widgets: Seq<Widget>)
    ensures
        routed(widgets, Seq::empty()).len() == 0,
    decreases widgets.len(),
{
    if widgets.len() > 0 {
        empty_id_has_no_rows(widgets.drop_last());
    }
}

/// An index leads from the entity of every widget to the row of that widget.
pub proof fn index_reaches_every_widget(index: RowIndex, dashboard: Dashboard, i: int)
    requires
        index.indexes(dashboard),
        0 <= i < dashboard.widgets().len(),
        dashboard.widgets()[i].entity matches Some(s) && s@.len() > 0,
    ensures
        ({
            let id = dashboard.widgets()[i].entity.unwrap()@;
            &&& index.ids().contains(id)
            &&& index.rows(id).contains(
                (
                    kind_of_widget(dashboard.widgets()[i].widget_type),
                    row_of(widget_kinds(dashboard.widgets()), i),
                ),
            )
            &&& index.rows(id).len() == Set::new(
                |j: int| 0 <= j < dashboard.widgets().len() && dashboard.widgets()[j].entity is Some
                    && dashboard.widgets()[j].entity.unwrap()@ == id,
            ).len()
        }),
{
    let widgets = dashboard.widgets();
    let id = widgets[i].entity.unwrap()@;
    routed_rows_keep_the_order(widgets, id, i);
    entity_has_a_row_per_widget(widgets, id);
    assert(index.rows(id) == routed(widgets, id));
    let at = routed(widgets.take(i), id).len() as int;
    assert(index.rows(id)[at] == (
        kind_of_widget(widgets[i].widget_type),
        row_of(widget_kinds(widgets), i),
    ));
}

/// An index has as many rows as there are widgets that are bound to an entity.
pub proof fn index_counts_the_bound_widgets(index: RowIndex, dashboard: Dashboard)
    requires
        index.indexes(dashboard),
    ensures
        index.total() == Set::new(
            |i: int| 0 <= i < dashboard.widgets().len() && dashboard.widgets()[i].entity is Some
                && dashboard.widgets()[i].entity.unwrap()@.len() > 0,
        ).len(),
{
    each_bound_widget_is_counted(dashboard.widgets());
}

/// Indexes are equal where they lead from the same entities to the same rows.
pub proof fn equal_indexes_lead_alike(a: RowIndex, b: RowIndex)
    ensures
        a.eq_spec(&b) <==> a.ids() == b.ids() && forall|id: Seq<char>| #[trigger]
            a.rows(id) == b.rows(id),
{
}

} // verus!
