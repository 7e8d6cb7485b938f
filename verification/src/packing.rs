//! Packing the tiles of a section into its grid.
//!
//! Tiles are set from left to right. A tile that no longer fits into a row opens
//! the next one; a row that is full is closed. Each section starts anew.
use crate::kinds::{shown, tile_kinds};
use crate::schema::{
    lemma_section_start_adds_up, section_start, widgets_before, widgets_of, Dashboard, Section,
};
use crate::tile::{TileModel, TilePlacement, TileVM};
use vstd::prelude::*;

verus! {

/// The cell at which the next tile may start.
pub struct PackCursor {
    pub col: int,
    pub row: int,
}

/// A tile is one column wide at least, and no wider than its section.
pub open spec fn fitted_span(span: int, columns: int) -> int {
    if span < 1 {
        1
    } else if span > columns {
        columns
    } else {
        span
    }
}

/// Where a tile of this width lands.
pub open spec fn seat(c: PackCursor, span: int, columns: int) -> PackCursor {
    if c.col + span > columns {
        PackCursor { col: 0, row: c.row + 1 }
    } else {
        c
    }
}

/// The cursor behind that tile.
pub open spec fn advance(c: PackCursor, span: int, columns: int) -> PackCursor {
    let s = seat(c, span, columns);
    if s.col + span >= columns {
        PackCursor { col: 0, row: s.row + 1 }
    } else {
        PackCursor { col: s.col + span, row: s.row }
    }
}

/// The place of a tile that is packed at a cursor. Its height is one row at least.
pub open spec fn packed_at(c: PackCursor, p: TilePlacement, columns: int) -> TilePlacement {
    let span = fitted_span(p.span_cols as int, columns);
    let s = seat(c, span, columns);
    TilePlacement {
        col: s.col as i32,
        row: s.row as i32,
        span_cols: span as i32,
        span_rows: if p.span_rows < 1 {
            1
        } else {
            p.span_rows
        },
    }
}

/// The cursor behind some tiles.
pub open spec fn cursor_after(places: Seq<TilePlacement>, columns: int) -> PackCursor
    decreases places.len(),
{
    if places.len() == 0 {
        PackCursor { col: 0, row: 0 }
    } else {
        advance(
            cursor_after(places.drop_last(), columns),
            fitted_span(places.last().span_cols as int, columns),
            columns,
        )
    }
}

/// The place of tile `i` of a section.
pub open spec fn packed(places: Seq<TilePlacement>, columns: int, i: int) -> TilePlacement {
    packed_at(cursor_after(places.take(i), columns), places[i], columns)
}

/// The places of `n` tiles from tile `start` on.
pub open spec fn places_from(tiles: Seq<TileModel>, start: int, n: int) -> Seq<TilePlacement> {
    Seq::new(n as nat, |j: int| tiles[start + j].placement)
}

/// `tiles`, with the first `n` tiles of a section set to the places that follow
/// from what they asked for in `asked`.
pub open spec fn with_section_packed(
    tiles: Seq<TileModel>,
    asked: Seq<TilePlacement>,
    start: int,
    n: int,
    columns: int,
) -> Seq<TileModel> {
    Seq::new(
        tiles.len(),
        |t: int|
            if start <= t < start + n {
                tiles[t].at(packed(asked, columns, t - start))
            } else {
                tiles[t]
            },
    )
}

/// The tiles of a dashboard with each section packed.
pub open spec fn with_sections_packed(
    sections: Seq<Section>,
    tiles: Seq<TileModel>,
) -> Seq<TileModel>
    decreases sections.len(),
{
    if sections.len() == 0 {
        tiles
    } else {
        let start = widgets_of(sections.drop_last()).len() as int;
        let n = sections.last().widgets@.len() as int;
        with_section_packed(
            with_sections_packed(sections.drop_last(), tiles),
            places_from(tiles, start, n),
            start,
            n,
            sections.last().grid_columns(),
        )
    }
}

/// The cursor stays within the columns, and every row above it holds a tile.
pub proof fn lemma_cursor_bounds(places: Seq<TilePlacement>, columns: int)
    requires
        columns >= 1,
    ensures
        0 <= cursor_after(places, columns).col < columns,
        0 <= cursor_after(places, columns).row,
        cursor_after(places, columns).row + (if cursor_after(places, columns).col > 0 {
            1int
        } else {
            0
        }) <= places.len(),
    decreases places.len(),
{
    if places.len() > 0 {
        lemma_cursor_bounds(places.drop_last(), columns);
    }
}

/// Sets a tile at the cursor and moves the cursor behind it.
pub fn next_pack_placement(
    current: TilePlacement,
    section_columns: i32,
    cursor_col: &mut i32,
    cursor_row: &mut i32,
) -> (r: TilePlacement)
    requires
        section_columns >= 1,
        *old(cursor_col) + fitted_span(current.span_cols as int, section_columns as int)
            <= i32::MAX,
        advance(
            PackCursor { col: *old(cursor_col) as int, row: *old(cursor_row) as int },
            fitted_span(current.span_cols as int, section_columns as int),
            section_columns as int,
        ).row <= i32::MAX,
    ensures
        r == packed_at(
            PackCursor { col: *old(cursor_col) as int, row: *old(cursor_row) as int },
            current,
            section_columns as int,
        ),
        (PackCursor { col: *final(cursor_col) as int, row: *final(cursor_row) as int }) == advance(
            PackCursor { col: *old(cursor_col) as int, row: *old(cursor_row) as int },
            fitted_span(current.span_cols as int, section_columns as int),
            section_columns as int,
        ),
        1 <= current.span_cols <= section_columns ==> r.span_cols == current.span_cols,
        current.span_cols < 1 ==> r.span_cols == 1,
        current.span_cols > section_columns ==> r.span_cols == section_columns,
        current.span_rows >= 1 ==> r.span_rows == current.span_rows,
        current.span_rows < 1 ==> r.span_rows == 1,
        *old(cursor_col) + r.span_cols <= section_columns ==> r.col == *old(cursor_col) && r.row
            == *old(cursor_row),
        *old(cursor_col) + r.span_cols > section_columns ==> r.col == 0 && r.row == *old(cursor_row)
            + 1,
        r.col + r.span_cols < section_columns ==> *final(cursor_col) == r.col + r.span_cols
            && *final(cursor_row) == r.row,
        r.col + r.span_cols >= section_columns ==> *final(cursor_col) == 0 && *final(cursor_row)
            == r.row + 1,
{
    let span_cols: i32 = if current.span_cols < 1 {
        1
    } else if current.span_cols > section_columns {
        section_columns
    } else {
        current.span_cols
    };
    let span_rows: i32 = if current.span_rows < 1 {
        1
    } else {
        current.span_rows
    };
    if *cursor_col + span_cols > section_columns {
        *cursor_col = 0;
        *cursor_row = *cursor_row + 1;
    }
    let placement: TilePlacement = TilePlacement {
        col: *cursor_col,
        row: *cursor_row,
        span_cols,
        span_rows,
    };
    *cursor_col = *cursor_col + span_cols;
    if *cursor_col >= section_columns {
        *cursor_col = 0;
        *cursor_row = *cursor_row + 1;
    }
    placement
}

/// The number of widgets up to a section grows with the sections.
pub proof fn lemma_section_start_grows(sections: Seq<Section>, k: int)
    requires
        0 <= k < sections.len(),
    ensures
        section_start(sections, k) + sections[k].widgets@.len() == section_start(sections, k + 1),
        section_start(sections, k + 1) <= widgets_of(sections).len(),
    decreases sections.len(),
{
    assert(sections.take(k + 1).drop_last() =~= sections.take(k));
    if k < sections.len() - 1 {
        lemma_section_start_grows(sections.drop_last(), k);
        assert(sections.drop_last().take(k + 1) =~= sections.take(k + 1));
        assert(sections.drop_last().take(k) =~= sections.take(k));
    } else {
        assert(sections.take(k + 1) =~= sections);
    }
}

/// Packing some sections leaves the tiles behind them alone, and changes nothing
/// of a tile but its place.
pub proof fn lemma_packing_is_local(sections: Seq<Section>, tiles: Seq<TileModel>)
    ensures
        with_sections_packed(sections, tiles).len() == tiles.len(),
        forall|t: int|
            widgets_of(sections).len() <= t < tiles.len()
                ==> #[trigger] with_sections_packed(sections, tiles)[t] == tiles[t],
        forall|t: int|
            0 <= t < tiles.len() ==> #[trigger] with_sections_packed(sections, tiles)[t]
                == tiles[t].at(with_sections_packed(sections, tiles)[t].placement),
    decreases sections.len(),
{
    if sections.len() > 0 {
        lemma_packing_is_local(sections.drop_last(), tiles);
    }
}

/// The tiles of a dashboard after packing. Tiles that do not match the widgets one
/// by one are left alone.
pub open spec fn packed_tiles(sections: Seq<Section>, tiles: Seq<TileModel>) -> Seq<TileModel> {
    if widgets_of(sections).len() == tiles.len() {
        with_sections_packed(sections, tiles)
    } else {
        tiles
    }
}

/// Packs the tiles of each section, where there are as many tiles as widgets.
pub fn pack_section_layouts(dashboard: &Dashboard, tiles: &mut Vec<TileVM>)
    requires
        dashboard.widgets().len() <= i32::MAX,
    ensures
        shown(final(tiles)@) == packed_tiles(dashboard.sections(), shown(old(tiles)@)),
        dashboard.widgets().len() != old(tiles)@.len() ==> final(tiles)@ == old(tiles)@,
{
    if dashboard.widget_list().len() != tiles.len() {
        return;
    }
    let sections: Vec<(usize, &Section)> = dashboard.section_list();
    let ghost all = dashboard.sections();
    let ghost asked = shown(tiles@);
    let mut start: usize = 0;
    let mut k: usize = 0;
    proof {
        assert(all.take(0) =~= Seq::empty());
    }
    while k < sections.len()
        invariant
            k <= sections@.len() == all.len(),
            forall|i: int| 0 <= i < all.len() ==> *(#[trigger] sections@[i]).1 == all[i],
            widgets_of(all).len() <= i32::MAX,
            start == section_start(all, k as int),
            start <= widgets_of(all).len(),
            tiles@.len() == asked.len() == widgets_of(all).len(),
            shown(tiles@) == with_sections_packed(all.take(k as int), asked),
        decreases sections@.len() - k,
    {
        let section: &Section = sections[k].1;
        let columns: i32 = if section.grid.columns == 0 {
            1
        } else {
            section.grid.columns as i32
        };
        let n: usize = section.widgets.len();
        let mut col: i32 = 0;
        let mut row: i32 = 0;
        let mut w: usize = 0;
        let ghost before = shown(tiles@);
        let ghost places = places_from(asked, start as int, n as int);
        proof {
            lemma_section_start_grows(all, k as int);
            lemma_packing_is_local(all.take(k as int), asked);
            assert(all.take(k + 1).drop_last() =~= all.take(k as int));
            assert(all.take(k + 1).last() == *section);
            assert(places.take(0) =~= Seq::empty());
            assert(shown(tiles@) =~= with_section_packed(
                before,
                places,
                start as int,
                0,
                columns as int,
            ));
        }
        while w < n
            invariant
                w <= n,
                n == places.len(),
                start + n <= widgets_of(all).len() <= i32::MAX,
                columns == section.grid_columns(),
                1 <= columns <= 255,
                tiles@.len() == asked.len() == before.len(),
                places == places_from(asked, start as int, n as int),
                forall|t: int| start <= t < before.len() ==> #[trigger] before[t] == asked[t],
                shown(tiles@) == with_section_packed(
                    before,
                    places,
                    start as int,
                    w as int,
                    columns as int,
                ),
                tiles@.len() == widgets_of(all).len(),
                (PackCursor { col: col as int, row: row as int }) == cursor_after(
                    places.take(w as int),
                    columns as int,
                ),
            decreases n - w,
        {
            let t: usize = start + w;
            proof {
                assert(places.take(w + 1).drop_last() =~= places.take(w as int));
                lemma_cursor_bounds(places.take(w as int), columns as int);
                lemma_cursor_bounds(places.take(w + 1), columns as int);
                assert(shown(tiles@)[t as int] == before[t as int]);
                assert(before[t as int] == asked[t as int]);
                assert(places[w as int] == asked[t as int].placement);
                assert(places.take(w + 1).last() == places[w as int]);
            }
            let ghost was = tiles@;
            let placement: TilePlacement = next_pack_placement(
                tiles[t].placement(),
                columns,
                &mut col,
                &mut row,
            );
            tiles[t].set_placement(placement);
            proof {
                assert(tiles@ =~= was.update(t as int, tiles@[t as int]));
                assert(shown(tiles@) =~= with_section_packed(
                    before,
                    places,
                    start as int,
                    w + 1,
                    columns as int,
                )) by {
                    assert forall|x: int| 0 <= x < tiles@.len() implies shown(tiles@)[x]
                        == with_section_packed(
                        before,
                        places,
                        start as int,
                        w + 1,
                        columns as int,
                    )[x] by {
                        if x != t {
                            assert(shown(was)[x] == tiles@[x]@);
                        }
                    }
                }
            }
            w = w + 1;
        }
        start = start + n;
        k = k + 1;
    }
    assert(all.take(k as int) =~= all);
}

proof fn lemma_cursor_moves_on(places: Seq<TilePlacement>, columns: int, i: int, j: int)
    requires
        0 <= i < j <= places.len(),
        columns >= 1,
    ensures
        ({
            let c = cursor_after(places.take(i), columns);
            let span = fitted_span(places[i].span_cols as int, columns);
            let s = seat(c, span, columns);
            let later = cursor_after(places.take(j), columns);
            later.row > s.row || (later.row == s.row && later.col >= s.col + span)
        }),
    decreases j,
{
    assert(places.take(j).drop_last() =~= places.take(j - 1));
    assert(places.take(j).last() == places[j - 1]);
    lemma_cursor_bounds(places.take(i), columns);
    if i < j - 1 {
        lemma_cursor_moves_on(places, columns, i, j - 1);
        lemma_cursor_bounds(places.take(j - 1), columns);
    }
}

/// A packed tile lies within the columns of its section.
pub proof fn packed_tile_stays_in_its_section(
    places: Seq<TilePlacement>,
    columns: int,
    i: int,
)
    requires
        1 <= columns <= i32::MAX,
        0 <= i < places.len() <= i32::MAX,
    ensures
        0 <= packed(places, columns, i).col,
        1 <= packed(places, columns, i).span_cols,
        packed(places, columns, i).col + packed(places, columns, i).span_cols <= columns,
        0 <= packed(places, columns, i).row <= i,
        1 <= packed(places, columns, i).span_rows,
{
    lemma_cursor_bounds(places.take(i), columns);
}

/// The first tile of a section is packed into the first cell.
pub proof fn first_tile_takes_the_first_cell(places: Seq<TilePlacement>, columns: int)
    requires
        1 <= columns <= i32::MAX,
        places.len() > 0,
    ensures
        packed(places, columns, 0).col == 0,
        packed(places, columns, 0).row == 0,
{
    assert(places.take(0) =~= Seq::empty());
}

/// Of two tiles of a section the later one is packed into a later row, or to the
/// right of the earlier one in the same row.
pub proof fn packed_tiles_keep_their_order(
    places: Seq<TilePlacement>,
    columns: int,
    i: int,
    j: int,
)
    requires
        1 <= columns <= i32::MAX,
        0 <= i < j < places.len() <= i32::MAX,
    ensures
        ({
            let a = packed(places, columns, i);
            let b = packed(places, columns, j);
            a.row < b.row || (a.row == b.row && a.col + a.span_cols <= b.col)
        }),
{
    lemma_cursor_moves_on(places, columns, i, j);
    lemma_cursor_bounds(places.take(i), columns);
    lemma_cursor_bounds(places.take(j), columns);
}

/// Packing tiles that are packed already changes nothing.
pub proof fn packing_again_changes_nothing(
    places: Seq<TilePlacement>,
    columns: int,
    i: int,
)
    requires
        1 <= columns <= i32::MAX,
        0 <= i < places.len(),
    ensures
        packed(
            Seq::new(places.len(), |x: int| packed(places, columns, x)),
            columns,
            i,
        ) == packed(places, columns, i),
{
    let again = Seq::new(places.len(), |x: int| packed(places, columns, x));
    lemma_same_cursor(places, again, columns, i);
}

proof fn lemma_same_cursor(
    places: Seq<TilePlacement>,
    again: Seq<TilePlacement>,
    columns: int,
    n: int,
)
    requires
        1 <= columns <= i32::MAX,
        0 <= n <= places.len(),
        again == Seq::new(places.len(), |x: int| packed(places, columns, x)),
    ensures
        cursor_after(again.take(n), columns) == cursor_after(places.take(n), columns),
    decreases n,
{
    if n > 0 {
        lemma_same_cursor(places, again, columns, n - 1);
        assert(places.take(n).drop_last() =~= places.take(n - 1));
        assert(again.take(n).drop_last() =~= again.take(n - 1));
    } else {
        assert(again.take(0) =~= places.take(0));
    }
}

/// Packing moves tiles within the grid, but never from one row of a model to
/// another: their kinds, and all else that they show, stay.
pub proof fn packing_keeps_the_rows(sections: Seq<Section>, tiles: Seq<TileModel>)
    ensures
        tile_kinds(with_sections_packed(sections, tiles)) == tile_kinds(tiles),
{
    lemma_packing_is_local(sections, tiles);
    assert(tile_kinds(with_sections_packed(sections, tiles)) =~= tile_kinds(tiles)) by {
        assert forall|t: int| 0 <= t < tiles.len() implies tile_kinds(
            with_sections_packed(sections, tiles),
        )[t] == tile_kinds(tiles)[t] by {
            assert(with_sections_packed(sections, tiles)[t] == tiles[t].at(
                with_sections_packed(sections, tiles)[t].placement,
            ));
        }
    }
}

/// Tile `j` of section `k` is packed among the tiles of its own section.
pub proof fn each_section_is_packed_by_itself(
    sections: Seq<Section>,
    tiles: Seq<TileModel>,
    k: int,
    j: int,
)
    requires
        0 <= k < sections.len(),
        0 <= j < sections[k].widgets@.len(),
        section_start(sections, k) + j < tiles.len(),
    ensures
        with_sections_packed(sections, tiles)[section_start(sections, k) + j]
            == tiles[section_start(sections, k) + j].at(
            packed(
                places_from(
                    tiles,
                    section_start(sections, k),
                    sections[k].widgets@.len() as int,
                ),
                sections[k].grid_columns(),
                j,
            ),
        ),
    decreases sections.len(),
{
    let last = sections.len() - 1;
    let rest = sections.drop_last();
    assert(sections.take(last) =~= rest);
    lemma_packing_is_local(rest, tiles);
    if k < last {
        assert(rest.take(k) =~= sections.take(k));
        each_section_is_packed_by_itself(rest, tiles, k, j);
        lemma_section_start_grows(rest, k);
        assert(rest.take(k + 1) =~= sections.take(k + 1));
    }
}

/// Every widget stands somewhere in some section.
pub proof fn lemma_locate(sections: Seq<Section>, i: int) -> (r: (int, int))
    requires
        0 <= i < widgets_of(sections).len(),
    ensures
        0 <= r.0 < sections.len(),
        0 <= r.1 < sections[r.0].widgets@.len(),
        section_start(sections, r.0) + r.1 == i,
    decreases sections.len(),
{
    let last = sections.len() - 1;
    let rest = sections.drop_last();
    assert(sections.take(last) =~= rest);
    if i < widgets_of(rest).len() {
        let (k, j) = lemma_locate(rest, i);
        assert(rest.take(k) =~= sections.take(k));
        (k, j)
    } else {
        (last, i - widgets_of(rest).len())
    }
}

/// Packing the tiles of a dashboard that are packed already changes nothing.
pub proof fn packing_a_dashboard_again_changes_nothing(
    sections: Seq<Section>,
    tiles: Seq<TileModel>,
)
    ensures
        packed_tiles(sections, packed_tiles(sections, tiles)) == packed_tiles(sections, tiles),
{
    if widgets_of(sections).len() == tiles.len() {
        let once = with_sections_packed(sections, tiles);
        let twice = with_sections_packed(sections, once);
        lemma_packing_is_local(sections, tiles);
        lemma_packing_is_local(sections, once);
        assert forall|x: int| 0 <= x < tiles.len() implies twice[x] == once[x] by {
            let (k, j) = lemma_locate(sections, x);
            let start = section_start(sections, k);
            let n = sections[k].widgets@.len() as int;
            let columns = sections[k].grid_columns();
            let asked = places_from(tiles, start, n);
            lemma_section_start_grows(sections, k);
            each_section_is_packed_by_itself(sections, tiles, k, j);
            each_section_is_packed_by_itself(sections, once, k, j);
            let again = Seq::new(asked.len(), |y: int| packed(asked, columns, y));
            assert(places_from(once, start, n) =~= again) by {
                assert forall|y: int| 0 <= y < n implies places_from(once, start, n)[y]
                    == again[y] by {
                    each_section_is_packed_by_itself(sections, tiles, k, y);
                }
            }
            packing_again_changes_nothing(asked, columns, j);
        }
        assert(twice =~= once);
    }
}

/// Packing is greedy: the tile behind another one stands next to it in the same row
/// where it fits there, and opens the next row only where it does not.
pub proof fn tile_opens_a_row_only_where_it_must(
    places: Seq<TilePlacement>,
    columns: int,
    i: int,
)
    requires
        1 <= columns <= i32::MAX,
        0 <= i,
        i + 1 < places.len() <= i32::MAX,
    ensures
        ({
            let a = packed(places, columns, i);
            let b = packed(places, columns, i + 1);
            &&& a.col + a.span_cols + b.span_cols <= columns ==> b.row == a.row && b.col == a.col
                + a.span_cols
            &&& a.col + a.span_cols + b.span_cols > columns ==> b.row == a.row + 1 && b.col == 0
        }),
{
    lemma_cursor_bounds(places.take(i), columns);
    assert(places.take(i + 1).drop_last() =~= places.take(i));
    assert(places.take(i + 1).last() == places[i]);
}

/// A packed tile keeps the size it asked for, but for what the section has no room
/// for: it is as wide as the section at most, and one cell at least.
pub proof fn packed_tile_keeps_its_size(places: Seq<TilePlacement>, columns: int, i: int)
    requires
        1 <= columns <= i32::MAX,
        0 <= i < places.len(),
    ensures
        ({
            let (asked, got) = (places[i], packed(places, columns, i));
            &&& 1 <= asked.span_cols <= columns ==> got.span_cols == asked.span_cols
            &&& asked.span_cols > columns ==> got.span_cols == columns
            &&& asked.span_cols < 1 ==> got.span_cols == 1
            &&& asked.span_rows >= 1 ==> got.span_rows == asked.span_rows
            &&& asked.span_rows < 1 ==> got.span_rows == 1
        }),
{
}

/// Of where a tile is packed nothing counts but the widths of the tiles up to it in
/// its section.
pub proof fn place_depends_on_the_widths_before(
    p: Seq<TilePlacement>,
    q: Seq<TilePlacement>,
    columns: int,
    i: int,
)
    requires
        0 <= i < p.len(),
        i < q.len(),
        forall|j: int| 0 <= j <= i ==> (#[trigger] p[j]).span_cols == q[j].span_cols,
    ensures
        packed(p, columns, i).col == packed(q, columns, i).col,
        packed(p, columns, i).row == packed(q, columns, i).row,
{
    lemma_cursor_by_widths(p, q, columns, i);
    assert(p[i].span_cols == q[i].span_cols);
}

proof fn lemma_cursor_by_widths(
    p: Seq<TilePlacement>,
    q: Seq<TilePlacement>,
    columns: int,
    n: int,
)
    requires
        0 <= n <= p.len(),
        n <= q.len(),
        forall|j: int| 0 <= j < n ==> (#[trigger] p[j]).span_cols == q[j].span_cols,
    ensures
        cursor_after(p.take(n), columns) == cursor_after(q.take(n), columns),
    decreases n,
{
    if n > 0 {
        lemma_cursor_by_widths(p, q, columns, n - 1);
        assert(p.take(n).drop_last() =~= p.take(n - 1));
        assert(q.take(n).drop_last() =~= q.take(n - 1));
        assert(p[n - 1].span_cols == q[n - 1].span_cols);
    }
}

/// In a packed dashboard, the first tile of a section stands in the first cell. A
/// further tile stands next to the one before it where it fits into the columns of
/// their section there, and opens the next row only where it does not.
pub proof fn dashboard_is_packed_greedily(
    sections: Seq<Section>,
    tiles: Seq<TileModel>,
    k: int,
    j: int,
)
    requires
        widgets_of(sections).len() == tiles.len() <= i32::MAX,
        0 <= k < sections.len(),
        0 <= j < sections[k].widgets@.len(),
    ensures
        ({
            let at = widgets_before(sections, k) + j;
            let columns = sections[k].grid.columns as int;
            let width = if columns == 0 {
                1
            } else {
                columns
            };
            let (asked, got) = (tiles[at].placement, packed_tiles(sections, tiles)[at].placement);
            &&& 0 <= at < tiles.len()
            &&& packed_tiles(sections, tiles).len() == tiles.len()
            &&& packed_tiles(sections, tiles)[at] == tiles[at].at(got)
            &&& 0 <= got.col
            &&& got.col + got.span_cols <= width
            &&& 1 <= asked.span_cols <= width ==> got.span_cols == asked.span_cols
            &&& asked.span_cols > width ==> got.span_cols == width
            &&& asked.span_cols < 1 ==> got.span_cols == 1
            &&& asked.span_rows >= 1 ==> got.span_rows == asked.span_rows
            &&& asked.span_rows < 1 ==> got.span_rows == 1
            &&& j == 0 ==> got.col == 0 && got.row == 0
            &&& j > 0 ==> {
                let before = packed_tiles(sections, tiles)[at - 1].placement;
                if before.col + before.span_cols + got.span_cols <= width {
                    got.row == before.row && got.col == before.col + before.span_cols
                } else {
                    got.row == before.row + 1 && got.col == 0
                }
            }
        }),
{
    let n = sections[k].widgets@.len() as int;
    let start = section_start(sections, k);
    let columns = sections[k].grid_columns();
    let asked = places_from(tiles, start, n);
    lemma_section_start_adds_up(sections, k);
    lemma_section_start_grows(sections, k);
    lemma_packing_is_local(sections, tiles);
    each_section_is_packed_by_itself(sections, tiles, k, j);
    packed_tile_stays_in_its_section(asked, columns, j);
    packed_tile_keeps_its_size(asked, columns, j);
    if j == 0 {
        first_tile_takes_the_first_cell(asked, columns);
    } else {
        each_section_is_packed_by_itself(sections, tiles, k, j - 1);
        tile_opens_a_row_only_where_it_must(asked, columns, j - 1);
    }
}

/// Tiles that do not match the widgets one by one are not packed.
pub proof fn unmatched_tiles_are_not_packed(sections: Seq<Section>, tiles: Seq<TileModel>)
    requires
        widgets_of(sections).len() != tiles.len(),
    ensures
        packed_tiles(sections, tiles) == tiles,
{
}

} // verus!
