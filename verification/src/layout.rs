//! The layout of a dashboard: its sections, and which row of which model stands
//! at each place.
use crate::kinds::{
    kind_count, lemma_count_bound, row_of, rows_are_not_shared, shown, tile_kinds, KindCursors,
};
use crate::packing::{lemma_locate, lemma_section_start_grows, places_from};
use crate::profiles::{density_text, DeviceProfile};
use crate::schema::{
    section_place, section_stands_at_its_place, section_start, section_views_of, widget_place,
    widget_stands_at_its_place, widgets_of, Dashboard, Section,
};
use crate::split::{split_shows_each_tile_at_its_row, SplitTileVms};
use crate::switcher::{
    active_index, active_view_index, copy_views, lists_views, view_entries, ViewEntry,
};
use crate::tile::{
    kind_text, kind_words_differ, tile_vm_kind_str, TileKind, TileModel, TilePlacement, TileVM,
};
use vstd::prelude::*;

verus! {

/// A section as it is drawn.
#[derive(Debug, PartialEq, Eq)]
pub struct DashboardSection {
    pub title: String,
    pub columns: i32,
    pub gap_px: i32,
    pub view_index: i32,
    pub num_rows: i32,
}

/// Where a tile is found: the model of its kind and its row there.
#[derive(Clone, Copy, Debug, PartialEq, Eq)]
pub struct DashboardTileSlot {
    pub view_index: i32,
    pub section_index: i32,
    pub kind: &'static str,
    pub kind_index: i32,
}

/// The layout of a dashboard.
#[derive(Debug, PartialEq, Eq)]
pub struct DashboardLayout {
    pub views: Vec<ViewEntry>,
    pub active_view_index: i32,
    pub density: String,
    pub sections: Vec<DashboardSection>,
    pub tile_slots: Vec<DashboardTileSlot>,
}

impl Clone for DashboardSection {
    fn clone(&self) -> (r: DashboardSection)
        ensures
            r == *self,
    {
        DashboardSection {
            title: self.title.clone(),
            columns: self.columns,
            gap_px: self.gap_px,
            view_index: self.view_index,
            num_rows: self.num_rows,
        }
    }
}

impl Clone for DashboardLayout {
    fn clone(&self) -> (r: DashboardLayout)
        ensures
            r.views@ == self.views@,
            r.active_view_index == self.active_view_index,
            r.density == self.density,
            r.sections@ == self.sections@,
            r.tile_slots@ == self.tile_slots@,
    {
        DashboardLayout {
            views: copy_views(&self.views),
            active_view_index: self.active_view_index,
            density: self.density.clone(),
            sections: copy_sections(&self.sections),
            tile_slots: copy_slots(&self.tile_slots),
        }
    }
}

/// A copy of sections.
pub fn copy_sections(sections: &Vec<DashboardSection>) -> (r: Vec<DashboardSection>)
    ensures
        r@ == sections@,
{
    let mut out: Vec<DashboardSection> = Vec::new();
    let mut i: usize = 0;
    while i < sections.len()
        invariant
            i <= sections@.len(),
            out@ =~= sections@.take(i as int),
        decreases sections@.len() - i,
    {
        out.push(sections[i].clone());
        i = i + 1;
    }
    assert(sections@.take(i as int) =~= sections@);
    out
}

/// A copy of slots.
pub fn copy_slots(slots: &Vec<DashboardTileSlot>) -> (r: Vec<DashboardTileSlot>)
    ensures
        r@ == slots@,
{
    let mut out: Vec<DashboardTileSlot> = Vec::new();
    let mut i: usize = 0;
    while i < slots.len()
        invariant
            i <= slots@.len(),
            out@ =~= slots@.take(i as int),
        decreases slots@.len() - i,
    {
        out.push(slots[i]);
        i = i + 1;
    }
    assert(slots@.take(i as int) =~= slots@);
    out
}

/// A number, or the nearest one that has 32 bits.
pub open spec fn saturated(n: int) -> int {
    if n > i32::MAX {
        i32::MAX as int
    } else if n < i32::MIN {
        i32::MIN as int
    } else {
        n
    }
}

/// The row below the lowest tile, counting from the first row on.
pub open spec fn bottom_row(places: Seq<TilePlacement>) -> int
    decreases places.len(),
{
    if places.len() == 0 {
        0
    } else {
        let above = bottom_row(places.drop_last());
        let bottom = saturated(places.last().row + places.last().span_rows);
        if bottom > above {
            bottom
        } else {
            above
        }
    }
}

/// The rows a section is drawn with: one at least.
pub open spec fn rows_needed(places: Seq<TilePlacement>) -> int {
    if bottom_row(places) < 1 {
        1
    } else {
        bottom_row(places)
    }
}

/// `s` is section `k` as it is drawn.
pub open spec fn section_drawn(
    s: DashboardSection,
    dashboard: Dashboard,
    tiles: Seq<TileModel>,
    k: int,
) -> bool {
    let section = dashboard.sections()[k];
    &&& s.title@ == section.title@
    &&& s.columns == section.grid_columns()
    &&& s.gap_px == section.grid.gap
    &&& s.view_index == saturated(section_views_of(dashboard.views@)[k])
    &&& s.num_rows == rows_needed(
        places_from(
            tiles,
            section_start(dashboard.sections(), k),
            section.widgets@.len() as int,
        ),
    )
}

/// `slot` leads to tile `i`, which stands in section `k`.
pub open spec fn slot_leads_to(
    slot: DashboardTileSlot,
    dashboard: Dashboard,
    tiles: Seq<TileModel>,
    k: int,
    i: int,
) -> bool {
    &&& slot.view_index == saturated(section_views_of(dashboard.views@)[k])
    &&& slot.section_index == saturated(k)
    &&& slot.kind@ == kind_text(tiles[i].body.kind())
    &&& slot.kind_index == row_of(tile_kinds(tiles), i)
}

/// The document index of widget `j` of section `k`.
pub open spec fn slot_index(sections: Seq<Section>, k: int, j: int) -> int {
    section_start(sections, k) + j
}

/// The slots are those of the first `n` sections.
pub open spec fn slots_lead(
    slots: Seq<DashboardTileSlot>,
    dashboard: Dashboard,
    tiles: Seq<TileModel>,
    n: int,
) -> bool {
    &&& slots.len() == section_start(dashboard.sections(), n)
    &&& forall|k: int, j: int|
        0 <= k < n && 0 <= j < dashboard.sections()[k].widgets@.len() ==> slot_leads_to(
            slots[#[trigger] slot_index(dashboard.sections(), k, j)],
            dashboard,
            tiles,
            k,
            slot_index(dashboard.sections(), k, j),
        )
}

/// A drawn section carries what its configuration says, and the index of its view.
pub open spec fn section_follows(drawn: DashboardSection, section: Section, v: int) -> bool {
    &&& drawn.title@ == section.title@
    &&& section.grid.columns > 0 ==> drawn.columns == section.grid.columns
    &&& section.grid.columns == 0 ==> drawn.columns == 1
    &&& drawn.gap_px == section.grid.gap
    &&& v <= i32::MAX ==> drawn.view_index == v
    &&& v > i32::MAX ==> drawn.view_index == i32::MAX
    &&& drawn.num_rows >= 1
}

/// A slot carries the index of its view, and that of its section among all sections.
pub open spec fn slot_belongs_to(slot: DashboardTileSlot, v: int, k: int) -> bool {
    &&& v <= i32::MAX ==> slot.view_index == v
    &&& v > i32::MAX ==> slot.view_index == i32::MAX
    &&& k <= i32::MAX ==> slot.section_index == k
    &&& k > i32::MAX ==> slot.section_index == i32::MAX
}

/// The row below a tile, no more than 32 bits can hold.
pub open spec fn reaches_to(p: TilePlacement) -> int {
    if p.row + p.span_rows > i32::MAX {
        i32::MAX as int
    } else {
        p.row + p.span_rows
    }
}

fn clip(n: usize) -> (r: i32)
    ensures
        r == saturated(n as int),
{
    if n > 0x7fff_ffff {
        0x7fff_ffff
    } else {
        n as i32
    }
}

fn clipped_sum(a: i32, b: i32) -> (r: i32)
    ensures
        r == saturated(a + b),
{
    let sum: i64 = a as i64 + b as i64;
    if sum > 0x7fff_ffff {
        0x7fff_ffff
    } else if sum < -0x8000_0000 {
        -0x8000_0000
    } else {
        sum as i32
    }
}

proof fn lemma_start_bounds(sections: Seq<Section>, k: int, n: int)
    requires
        0 <= k < n <= sections.len(),
    ensures
        section_start(sections, k) + sections[k].widgets@.len() <= section_start(sections, n),
    decreases n - k,
{
    lemma_section_start_grows(sections, n - 1);
    if k < n - 1 {
        lemma_start_bounds(sections, k, n - 1);
    }
}

/// The layout of a dashboard. Where there are not as many tiles as widgets, neither
/// sections nor slots are laid out.
pub fn compute_dashboard_layout(
    dashboard: &Dashboard,
    profile: &DeviceProfile,
    tiles: &Vec<TileVM>,
) -> (r: DashboardLayout)
    requires
        dashboard.widgets().len() <= i32::MAX,
    ensures
        lists_views(r.views@, dashboard.views@),
        r.active_view_index == active_index(r.views@, dashboard.default_view@),
        r.density@ == density_text(profile.density),
        r.views@.len() == dashboard.views@.len(),
        forall|i: int|
            0 <= i < r.views@.len() ==> (#[trigger] r.views@[i]).id@ == dashboard.views@[i].id@
                && r.views@[i].title@ == dashboard.views@[i].title@,
        r.active_view_index != 0 ==> 0 < r.active_view_index < r.views@.len()
            && r.views@[r.active_view_index as int].id@ == dashboard.default_view@,
        forall|j: int|
            0 <= j < r.active_view_index ==> (#[trigger] r.views@[j]).id@
                != dashboard.default_view@,
        forall|j: int|
            0 <= j < r.views@.len() && j <= i32::MAX && (#[trigger] r.views@[j]).id@
                == dashboard.default_view@ ==> r.views@[r.active_view_index as int].id@
                == dashboard.default_view@,
        profile.density is Compact ==> r.density@ == "compact"@,
        profile.density is Regular ==> r.density@ == "regular"@,
        profile.density is Spacious ==> r.density@ == "spacious"@,
        dashboard.widgets().len() != tiles@.len() ==> r.sections@.len() == 0 && r.tile_slots@.len()
            == 0,
        dashboard.widgets().len() == tiles@.len() ==> {
            &&& r.sections@.len() == dashboard.sections().len()
            &&& forall|k: int|
                0 <= k < r.sections@.len() ==> section_drawn(
                    #[trigger] r.sections@[k],
                    *dashboard,
                    shown(tiles@),
                    k,
                )
            &&& r.tile_slots@.len() == dashboard.widgets().len()
            &&& slots_lead(
                r.tile_slots@,
                *dashboard,
                shown(tiles@),
                dashboard.sections().len() as int,
            )
            &&& forall|v: int, s: int|
                0 <= v < dashboard.views@.len() && 0 <= s < dashboard.views@[v].sections@.len()
                    ==> section_follows(
                    #[trigger] r.sections@[section_place(dashboard.views@, v, s)],
                    dashboard.views@[v].sections@[s],
                    v,
                )
            &&& forall|v: int, s: int, w: int|
                0 <= v < dashboard.views@.len() && 0 <= s < dashboard.views@[v].sections@.len()
                    && 0 <= w < dashboard.views@[v].sections@[s].widgets@.len()
                    ==> slot_belongs_to(
                    #[trigger] r.tile_slots@[widget_place(dashboard.views@, v, s, w)],
                    v,
                    section_place(dashboard.views@, v, s),
                )
            &&& forall|v: int, s: int, w: int|
                0 <= v < dashboard.views@.len() && 0 <= s < dashboard.views@[v].sections@.len()
                    && 0 <= w < dashboard.views@[v].sections@[s].widgets@.len() ==> reaches_to(
                    (#[trigger] tiles@[widget_place(dashboard.views@, v, s, w)])@.placement,
                ) <= r.sections@[section_place(dashboard.views@, v, s)].num_rows
            &&& forall|v: int, s: int|
                0 <= v < dashboard.views@.len() && 0 <= s < dashboard.views@[v].sections@.len() && (
                #[trigger] r.sections@[section_place(dashboard.views@, v, s)]).num_rows > 1
                    ==> exists|w: int|
                    0 <= w < dashboard.views@[v].sections@[s].widgets@.len() && reaches_to(
                        (#[trigger] tiles@[widget_place(dashboard.views@, v, s, w)])@.placement,
                    ) == r.sections@[section_place(dashboard.views@, v, s)].num_rows
        },
{
    let views: Vec<ViewEntry> = view_entries(dashboard);
    let active: i32 = active_view_index(&views, &dashboard.default_view);
    let density: String = profile.density.word();
    if dashboard.widget_list().len() != tiles.len() {
        return DashboardLayout {
            views,
            active_view_index: active,
            density,
            sections: Vec::new(),
            tile_slots: Vec::new(),
        };
    }
    let list: Vec<(usize, &Section)> = dashboard.section_list();
    let mut sections: Vec<DashboardSection> = Vec::new();
    let mut slots: Vec<DashboardTileSlot> = Vec::new();
    let mut cursors: KindCursors = KindCursors::new();
    let ghost all = dashboard.sections();
    let ghost models = shown(tiles@);
    let ghost kinds = tile_kinds(models);
    let ghost view_of = section_views_of(dashboard.views@);
    let mut k: usize = 0;
    proof {
        assert(all.take(0) =~= Seq::empty());
        assert(kinds.take(0) =~= Seq::empty());
        assert(all.take(all.len() as int) =~= all);
    }
    while k < list.len()
        invariant
            k <= list@.len() == all.len(),
            all == dashboard.sections(),
            models == shown(tiles@),
            kinds == tile_kinds(models),
            view_of == section_views_of(dashboard.views@),
            forall|i: int|
                0 <= i < all.len() ==> *(#[trigger] list@[i]).1 == all[i] && list@[i].0
                    == view_of[i],
            widgets_of(all).len() <= i32::MAX,
            sections@.len() == k,
            slots_lead(slots@, *dashboard, models, k as int),
            widgets_of(all).len() == tiles@.len(),
            section_start(all, k as int) <= widgets_of(all).len(),
            cursors.counted(kinds.take(slots@.len() as int)),
            forall|x: int|
                0 <= x < k ==> section_drawn(#[trigger] sections@[x], *dashboard, models, x),
        decreases list@.len() - k,
    {
        let section: &Section = list[k].1;
        let view_index: i32 = clip(list[k].0);
        let section_index: i32 = clip(k);
        let n: usize = section.widgets.len();
        let ghost start = section_start(all, k as int);
        let ghost places = places_from(models, start, n as int);
        let ghost earlier = slots@;
        let mut bottom: i32 = 0;
        let mut w: usize = 0;
        proof {
            lemma_section_start_grows(all, k as int);
            assert(places.take(0) =~= Seq::empty());
        }
        while w < n
            invariant
                w <= n,
                k < all.len(),
                n == all[k as int].widgets@.len(),
                all == dashboard.sections(),
                models == shown(tiles@),
                kinds == tile_kinds(models),
                view_of == section_views_of(dashboard.views@),
                view_index == saturated(view_of[k as int]),
                section_index == saturated(k as int),
                start == section_start(all, k as int),
                start + n <= widgets_of(all).len() <= i32::MAX,
                widgets_of(all).len() == tiles@.len(),
                places == places_from(models, start, n as int),
                slots@.len() == start + w,
                earlier.len() == start,
                forall|i: int| 0 <= i < earlier.len() ==> #[trigger] slots@[i] == earlier[i],
                forall|i: int|
                    start <= i < slots@.len() ==> slot_leads_to(
                        #[trigger] slots@[i],
                        *dashboard,
                        models,
                        k as int,
                        i,
                    ),
                cursors.counted(kinds.take(slots@.len() as int)),
                bottom == bottom_row(places.take(w as int)),
            decreases n - w,
        {
            let t: usize = slots.len();
            let tile: &TileVM = &tiles[t];
            let kind: TileKind = tile.kind();
            proof {
                assert(models[t as int] == tile@);
                assert(kinds[t as int] == kind);
                lemma_count_bound(kinds.take(t as int), kind);
                assert(cursors.count(kind) == kind_count(kinds.take(t as int), kind));
                assert(kinds.take(t as int).push(kind) =~= kinds.take(t + 1));
                assert(places[w as int] == tile@.placement);
                assert(places.take(w + 1).drop_last() =~= places.take(w as int));
                assert(places.take(w + 1).last() == places[w as int]);
            }
            let row: usize = cursors.next(kind);
            let placement: TilePlacement = tile.placement();
            let below: i32 = clipped_sum(placement.row, placement.span_rows);
            if below > bottom {
                bottom = below;
            }
            slots.push(
                DashboardTileSlot {
                    view_index,
                    section_index,
                    kind: tile_vm_kind_str(tile),
                    kind_index: row as i32,
                },
            );
            w = w + 1;
        }
        proof {
            assert(places.take(n as int) =~= places);
            assert forall|a: int, b: int|
                0 <= a < k + 1 && 0 <= b < all[a].widgets@.len() implies slot_leads_to(
                slots@[#[trigger] slot_index(all, a, b)],
                *dashboard,
                models,
                a,
                slot_index(all, a, b),
            ) by {
                if a < k {
                    lemma_start_bounds(all, a, k as int);
                    assert(slots@[slot_index(all, a, b)] == earlier[slot_index(all, a, b)]);
                }
            }
        }
        sections.push(
            DashboardSection {
                title: section.title.clone(),
                columns: if section.grid.columns == 0 {
                    1
                } else {
                    section.grid.columns as i32
                },
                gap_px: section.grid.gap as i32,
                view_index,
                num_rows: if bottom < 1 {
                    1
                } else {
                    bottom
                },
            },
        );
        k = k + 1;
    }
    proof {
        assert forall|v: int, s: int|
            0 <= v < dashboard.views@.len() && 0 <= s
                < dashboard.views@[v].sections@.len() implies section_follows(
            #[trigger] sections@[section_place(dashboard.views@, v, s)],
            dashboard.views@[v].sections@[s],
            v,
        ) by {
            section_stands_at_its_place(dashboard.views@, v, s);
            assert(section_drawn(
                sections@[section_place(dashboard.views@, v, s)],
                *dashboard,
                models,
                section_place(dashboard.views@, v, s),
            ));
        }
        assert forall|v: int, s: int, w: int|
            0 <= v < dashboard.views@.len() && 0 <= s < dashboard.views@[v].sections@.len() && 0
                <= w < dashboard.views@[v].sections@[s].widgets@.len() implies slot_belongs_to(
            #[trigger] slots@[widget_place(dashboard.views@, v, s, w)],
            v,
            section_place(dashboard.views@, v, s),
        ) by {
            let at = section_place(dashboard.views@, v, s);
            section_stands_at_its_place(dashboard.views@, v, s);
            widget_stands_at_its_place(dashboard.views@, v, s, w);
            assert(slot_index(all, at, w) == widget_place(dashboard.views@, v, s, w));
        }
        assert forall|v: int, s: int, w: int|
            0 <= v < dashboard.views@.len() && 0 <= s < dashboard.views@[v].sections@.len() && 0
                <= w < dashboard.views@[v].sections@[s].widgets@.len() implies reaches_to(
            (#[trigger] tiles@[widget_place(dashboard.views@, v, s, w)])@.placement,
        ) <= sections@[section_place(dashboard.views@, v, s)].num_rows by {
            let at = section_place(dashboard.views@, v, s);
            section_stands_at_its_place(dashboard.views@, v, s);
            widget_stands_at_its_place(dashboard.views@, v, s, w);
            assert(section_drawn(sections@[at], *dashboard, models, at));
            section_has_room_for_its_tiles(
                places_from(models, section_start(all, at), all[at].widgets@.len() as int),
                w,
            );
        }
        assert forall|v: int, s: int|
            0 <= v < dashboard.views@.len() && 0 <= s < dashboard.views@[v].sections@.len() && (
            #[trigger] sections@[section_place(dashboard.views@, v, s)]).num_rows > 1 implies exists|
            w: int,
        |
            0 <= w < dashboard.views@[v].sections@[s].widgets@.len() && reaches_to(
                (#[trigger] tiles@[widget_place(dashboard.views@, v, s, w)])@.placement,
            ) == sections@[section_place(dashboard.views@, v, s)].num_rows by {
            let at = section_place(dashboard.views@, v, s);
            section_stands_at_its_place(dashboard.views@, v, s);
            assert(section_drawn(sections@[at], *dashboard, models, at));
            let w = section_has_no_idle_rows(
                places_from(models, section_start(all, at), all[at].widgets@.len() as int),
            );
            widget_stands_at_its_place(dashboard.views@, v, s, w);
            assert(reaches_to(
                tiles@[widget_place(dashboard.views@, v, s, w)]@.placement,
            ) == sections@[at].num_rows);
        }
    }
    DashboardLayout {
        views,
        active_view_index: active,
        density,
        sections,
        tile_slots: slots,
    }
}

/// The slot of a tile leads to the row that shows this tile.
pub proof fn slot_leads_to_the_tile(
    slot: DashboardTileSlot,
    dashboard: Dashboard,
    tiles: Seq<TileModel>,
    split: SplitTileVms,
    k: int,
    i: int,
)
    requires
        0 <= i < tiles.len(),
        slot_leads_to(slot, dashboard, tiles, k, i),
        split.holds(tiles),
    ensures
        slot.kind@ == kind_text(tiles[i].body.kind()),
        0 <= slot.kind_index < split.rows(tiles[i].body.kind()),
        split.shows(tiles[i].body.kind(), slot.kind_index as int, tiles[i]),
{
    split_shows_each_tile_at_its_row(split, tiles, i);
}

/// Every slot of a dashboard leads to the row that shows its tile, and no two slots
/// lead to the same row.
pub proof fn every_slot_has_a_row_of_its_own(
    slots: Seq<DashboardTileSlot>,
    dashboard: Dashboard,
    tiles: Seq<TileModel>,
    split: SplitTileVms,
    i: int,
    j: int,
)
    requires
        dashboard.widgets().len() == tiles.len(),
        slots_lead(slots, dashboard, tiles, dashboard.sections().len() as int),
        split.holds(tiles),
        0 <= i < tiles.len(),
        0 <= j < tiles.len(),
    ensures
        slots.len() == tiles.len(),
        slots[i].kind@ == kind_text(tiles[i].body.kind()),
        0 <= slots[i].kind_index < split.rows(tiles[i].body.kind()),
        split.shows(tiles[i].body.kind(), slots[i].kind_index as int, tiles[i]),
        i != j ==> !(slots[i].kind@ == slots[j].kind@ && slots[i].kind_index
            == slots[j].kind_index),
{
    let sections = dashboard.sections();
    assert(sections.take(sections.len() as int) =~= sections);
    let (k, a) = lemma_locate(sections, i);
    assert(slot_index(sections, k, a) == i);
    slot_leads_to_the_tile(slots[i], dashboard, tiles, split, k, i);
    let (l, b) = lemma_locate(sections, j);
    assert(slot_index(sections, l, b) == j);
    let kinds = tile_kinds(tiles);
    if i != j && slots[i].kind@ == slots[j].kind@ {
        if kinds[i] != kinds[j] {
            kind_words_differ(kinds[i], kinds[j]);
        }
        if i < j {
            rows_are_not_shared(kinds, i, j);
        } else {
            rows_are_not_shared(kinds, j, i);
        }
    }
}

/// A section is drawn with enough rows for each of its tiles.
pub proof fn section_has_room_for_its_tiles(places: Seq<TilePlacement>, i: int)
    requires
        0 <= i < places.len(),
    ensures
        saturated(places[i].row + places[i].span_rows) <= rows_needed(places),
    decreases places.len(),
{
    if i < places.len() - 1 {
        section_has_room_for_its_tiles(places.drop_last(), i);
    }
}

/// A section is drawn with no more rows than it needs: it has a single one, or a tile
/// reaches down to the last one.
pub proof fn section_has_no_idle_rows(places: Seq<TilePlacement>) -> (i: int)
    ensures
        rows_needed(places) >= 1,
        rows_needed(places) == 1 || (0 <= i < places.len() && rows_needed(places) == saturated(
            places[i].row + places[i].span_rows,
        )),
    decreases places.len(),
{
    if places.len() == 0 {
        0
    } else {
        let last = places.len() - 1;
        let above = section_has_no_idle_rows(places.drop_last());
        if bottom_row(places) == bottom_row(places.drop_last()) {
            above
        } else {
            last
        }
    }
}

/// A number of 32 bits stays as it is, and any other one becomes the nearest that has
/// 32 bits.
pub proof fn saturated_number_is_the_nearest(n: int, m: int)
    requires
        i32::MIN <= m <= i32::MAX,
    ensures
        i32::MIN <= saturated(n) <= i32::MAX,
        i32::MIN <= n <= i32::MAX ==> saturated(n) == n,
        n <= m ==> n <= saturated(n) <= m,
        m <= n ==> m <= saturated(n) <= n,
{
}

} // verus!
