//! Rows: every kind of tile has a model of its own, and a tile's row in it is the
//! number of tiles of that kind before it.
use crate::schema::Widget;
use crate::tile::{kind_of_widget, TileKind, TileModel, TileVM};
use vstd::prelude::*;

verus! {

/// How many of `kinds` are `k`.
pub open spec fn kind_count(kinds: Seq<TileKind>, k: TileKind) -> nat
    decreases kinds.len(),
{
    if kinds.len() == 0 {
        0
    } else {
        kind_count(kinds.drop_last(), k) + if kinds.last() == k {
            1nat
        } else {
            0
        }
    }
}

/// The row of tile `i` in the model of its kind.
pub open spec fn row_of(kinds: Seq<TileKind>, i: int) -> int {
    kind_count(kinds.take(i), kinds[i]) as int
}

/// The kinds of tile that some widgets become.
pub open spec fn widget_kinds(widgets: Seq<Widget>) -> Seq<TileKind> {
    Seq::new(widgets.len(), |i: int| kind_of_widget(widgets[i].widget_type))
}

/// The kinds of some tiles.
pub open spec fn tile_kinds(tiles: Seq<TileModel>) -> Seq<TileKind> {
    Seq::new(tiles.len(), |i: int| tiles[i].body.kind())
}

/// What some tiles show.
pub open spec fn shown(tiles: Seq<TileVM>) -> Seq<TileModel> {
    Seq::new(tiles.len(), |i: int| tiles[i]@)
}

/// The tiles of one kind, in the order in which they stand.
pub open spec fn of_kind(tiles: Seq<TileModel>, k: TileKind) -> Seq<TileModel>
    decreases tiles.len(),
{
    if tiles.len() == 0 {
        Seq::empty()
    } else {
        let before = of_kind(tiles.drop_last(), k);
        if tiles.last().body.kind() == k {
            before.push(tiles.last())
        } else {
            before
        }
    }
}

/// The model of a kind has as many rows as there are tiles of the kind.
pub proof fn lemma_of_kind_len(tiles: Seq<TileModel>, k: TileKind)
    ensures
        of_kind(tiles, k).len() == kind_count(tile_kinds(tiles), k),
    decreases tiles.len(),
{
    if tiles.len() > 0 {
        lemma_of_kind_len(tiles.drop_last(), k);
        assert(tile_kinds(tiles).drop_last() =~= tile_kinds(tiles.drop_last()));
    }
}

/// Tile `i` stands at its row in the model of its kind.
pub proof fn tile_stands_at_its_row(tiles: Seq<TileModel>, i: int)
    requires
        0 <= i < tiles.len(),
    ensures
        0 <= row_of(tile_kinds(tiles), i) < of_kind(tiles, tiles[i].body.kind()).len(),
        of_kind(tiles, tiles[i].body.kind())[row_of(tile_kinds(tiles), i)] == tiles[i],
    decreases tiles.len(),
{
    let k = tiles[i].body.kind();
    let rest = tiles.drop_last();
    assert(tile_kinds(tiles).take(i) =~= tile_kinds(tiles.take(i)));
    if i == tiles.len() - 1 {
        assert(tiles.take(i) =~= rest);
        lemma_of_kind_len(rest, k);
    } else {
        assert(tile_kinds(rest).take(i) =~= tile_kinds(tiles.take(i)));
        tile_stands_at_its_row(rest, i);
    }
}

/// Two tiles of one kind never share a row.
pub proof fn rows_are_not_shared(kinds: Seq<TileKind>, i: int, j: int)
    requires
        0 <= i < j < kinds.len(),
        kinds[i] == kinds[j],
    ensures
        row_of(kinds, i) < row_of(kinds, j),
    decreases j,
{
    let part = kinds.take(j);
    assert(part.drop_last() =~= kinds.take(j - 1));
    if i < j - 1 {
        lemma_count_grows(kinds, i + 1, j, kinds[i]);
    }
    assert(kinds.take(i + 1).drop_last() =~= kinds.take(i));
}

proof fn lemma_count_grows(kinds: Seq<TileKind>, i: int, j: int, k: TileKind)
    requires
        0 <= i <= j <= kinds.len(),
    ensures
        kind_count(kinds.take(i), k) <= kind_count(kinds.take(j), k),
    decreases j - i,
{
    if i < j {
        lemma_count_grows(kinds, i, j - 1, k);
        assert(kinds.take(j).drop_last() =~= kinds.take(j - 1));
    }
}

/// A kind does not occur more often than there are tiles.
pub proof fn lemma_count_bound(kinds: Seq<TileKind>, k: TileKind)
    ensures
        kind_count(kinds, k) <= kinds.len(),
    decreases kinds.len(),
{
    if kinds.len() > 0 {
        lemma_count_bound(kinds.drop_last(), k);
    }
}

/// A counter for each kind of tile.
#[derive(Clone, Copy, Debug, PartialEq, Eq, Structural)]
pub struct KindCursors {
    light: usize,
    sensor: usize,
    entity: usize,
    cover: usize,
    fan: usize,
    lock: usize,
    alarm: usize,
    history: usize,
    camera: usize,
    climate: usize,
    media_player: usize,
    power_flow: usize,
}

impl KindCursors {
    /// What the counter of `k` stands at.
    pub closed spec fn count(self, k: TileKind) -> int {
        match k {
            TileKind::Light => self.light as int,
            TileKind::Sensor => self.sensor as int,
            TileKind::Entity => self.entity as int,
            TileKind::Cover => self.cover as int,
            TileKind::Fan => self.fan as int,
            TileKind::Lock => self.lock as int,
            TileKind::Alarm => self.alarm as int,
            TileKind::History => self.history as int,
            TileKind::Camera => self.camera as int,
            TileKind::Climate => self.climate as int,
            TileKind::MediaPlayer => self.media_player as int,
            TileKind::PowerFlow => self.power_flow as int,
        }
    }

    /// The counters have counted `kinds`.
    pub open spec fn counted(self, kinds: Seq<TileKind>) -> bool {
        forall|k: TileKind| #[trigger] self.count(k) == kind_count(kinds, k)
    }

    /// `next` differs from `self` by one more tile of `kind`.
    pub open spec fn counts_one_more(self, next: KindCursors, kind: TileKind) -> bool {
        forall|k: TileKind| #[trigger]
            next.count(k) == self.count(k) + if k == kind {
                1int
            } else {
                0
            }
    }

    /// All counters at zero.
    pub fn new() -> (r: KindCursors)
        ensures
            r.counted(Seq::empty()),
    {
        KindCursors {
            light: 0,
            sensor: 0,
            entity: 0,
            cover: 0,
            fan: 0,
            lock: 0,
            alarm: 0,
            history: 0,
            camera: 0,
            climate: 0,
            media_player: 0,
            power_flow: 0,
        }
    }

    /// Counts a tile and gives the row it takes.
    pub fn next(&mut self, kind: TileKind) -> (row: usize)
        requires
            old(self).count(kind) < usize::MAX,
        ensures
            row == old(self).count(kind),
            forall|kinds: Seq<TileKind>|
                old(self).counted(kinds) ==> #[trigger] final(self).counted(kinds.push(kind)),
    {
        let row: usize = match kind {
            TileKind::Light => self.light,
            TileKind::Sensor => self.sensor,
            TileKind::Entity => self.entity,
            TileKind::Cover => self.cover,
            TileKind::Fan => self.fan,
            TileKind::Lock => self.lock,
            TileKind::Alarm => self.alarm,
            TileKind::History => self.history,
            TileKind::Camera => self.camera,
            TileKind::Climate => self.climate,
            TileKind::MediaPlayer => self.media_player,
            TileKind::PowerFlow => self.power_flow,
        };
        *self = KindCursors {
            light: bump(self.light, kind == TileKind::Light),
            sensor: bump(self.sensor, kind == TileKind::Sensor),
            entity: bump(self.entity, kind == TileKind::Entity),
            cover: bump(self.cover, kind == TileKind::Cover),
            fan: bump(self.fan, kind == TileKind::Fan),
            lock: bump(self.lock, kind == TileKind::Lock),
            alarm: bump(self.alarm, kind == TileKind::Alarm),
            history: bump(self.history, kind == TileKind::History),
            camera: bump(self.camera, kind == TileKind::Camera),
            climate: bump(self.climate, kind == TileKind::Climate),
            media_player: bump(self.media_player, kind == TileKind::MediaPlayer),
            power_flow: bump(self.power_flow, kind == TileKind::PowerFlow),
        };
        proof {
            lemma_counted_step(*old(self), *self, kind);
        }
        row
    }
}

fn bump(n: usize, taken: bool) -> (r: usize)
    requires
        taken ==> n < usize::MAX,
    ensures
        r == n + if taken {
            1int
        } else {
            0
        },
{
    if taken {
        n + 1
    } else {
        n
    }
}

proof fn lemma_counted_step(before: KindCursors, after: KindCursors, kind: TileKind)
    requires
        before.counts_one_more(after, kind),
    ensures
        forall|kinds: Seq<TileKind>|
            before.counted(kinds) ==> #[trigger] after.counted(kinds.push(kind)),
{
    assert forall|kinds: Seq<TileKind>| before.counted(kinds) implies #[trigger] after.counted(
        kinds.push(kind),
    ) by {
        assert(kinds.push(kind).drop_last() =~= kinds);
        assert forall|k: TileKind| #[trigger] after.count(k) == kind_count(kinds.push(kind), k) by {
            assert(before.count(k) == kind_count(kinds, k));
        }
    }
}

/// The row of a tile is the number of tiles of its kind that stand before it.
pub proof fn row_counts_the_tiles_before(kinds: Seq<TileKind>, i: int)
    requires
        0 <= i < kinds.len(),
    ensures
        row_of(kinds, i) == Set::new(|j: int| 0 <= j < i && kinds[j] == kinds[i]).len(),
        Set::new(|j: int| 0 <= j < i && kinds[j] == kinds[i]).finite(),
{
    let k = kinds[i];
    let part = kinds.take(i);
    kind_count_is_the_number_of_places(part, k);
    assert(Set::new(|j: int| 0 <= j < i && kinds[j] == kinds[i]) =~= Set::new(
        |j: int| 0 <= j < part.len() && part[j] == k,
    ));
}

/// The count of a kind is the number of places where it stands.
pub proof fn kind_count_is_the_number_of_places(kinds: Seq<TileKind>, k: TileKind)
    ensures
        Set::new(|j: int| 0 <= j < kinds.len() && kinds[j] == k).finite(),
        kind_count(kinds, k) == Set::new(|j: int| 0 <= j < kinds.len() && kinds[j] == k).len(),
    decreases kinds.len(),
{
    let all = Set::new(|j: int| 0 <= j < kinds.len() && kinds[j] == k);
    if kinds.len() == 0 {
        assert(all =~= Set::empty());
    } else {
        let rest = kinds.drop_last();
        let before = Set::new(|j: int| 0 <= j < rest.len() && rest[j] == k);
        kind_count_is_the_number_of_places(rest, k);
        if kinds.last() == k {
            assert(all =~= before.insert(kinds.len() - 1));
        } else {
            assert(all =~= before);
        }
    }
}

/// The first tile of a kind takes the first row, and the next one of that kind the
/// row behind.
pub proof fn rows_follow_each_other(kinds: Seq<TileKind>, i: int, j: int)
    requires
        0 <= i < j < kinds.len(),
        kinds[i] == kinds[j],
        forall|k: int| i < k < j ==> kinds[k] != kinds[i],
    ensures
        row_of(kinds, j) == row_of(kinds, i) + 1,
        (forall|k: int| 0 <= k < i ==> kinds[k] != kinds[i]) ==> row_of(kinds, i) == 0,
{
    let k = kinds[i];
    assert(kinds.take(i + 1).drop_last() =~= kinds.take(i));
    lemma_count_rests(kinds, i + 1, j, k);
    if forall|m: int| 0 <= m < i ==> kinds[m] != kinds[i] {
        assert(kinds.take(0) =~= Seq::empty());
        lemma_count_rests(kinds, 0, i, k);
    }
}

proof fn lemma_count_rests(kinds: Seq<TileKind>, i: int, j: int, k: TileKind)
    requires
        0 <= i <= j <= kinds.len(),
        forall|m: int| i <= m < j ==> kinds[m] != k,
    ensures
        kind_count(kinds.take(i), k) == kind_count(kinds.take(j), k),
    decreases j - i,
{
    if i < j {
        lemma_count_rests(kinds, i, j - 1, k);
        assert(kinds.take(j).drop_last() =~= kinds.take(j - 1));
    }
}

/// Of a list of widgets or tiles, each counts at its own place.
pub proof fn kinds_stand_in_place(widgets: Seq<Widget>, tiles: Seq<TileVM>, i: int)
    ensures
        widget_kinds(widgets).len() == widgets.len(),
        shown(tiles).len() == tiles.len(),
        tile_kinds(shown(tiles)).len() == tiles.len(),
        0 <= i < widgets.len() ==> widget_kinds(widgets)[i] == kind_of_widget(
            widgets[i].widget_type,
        ),
        0 <= i < tiles.len() ==> shown(tiles)[i] == tiles[i]@ && tile_kinds(shown(tiles))[i]
            == tiles[i]@.body.kind(),
{
}

} // verus!
