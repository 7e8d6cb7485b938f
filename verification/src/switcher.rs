//! The switch between the views of a dashboard.
use crate::profiles::{density_text, DeviceProfile};
use crate::schema::{DashView, Dashboard};
use vstd::prelude::*;

verus! {

/// A view that can be switched to.
#[derive(Debug, PartialEq, Eq)]
pub struct ViewEntry {
    pub id: String,
    pub title: String,
}

impl Clone for ViewEntry {
    fn clone(&self) -> (r: ViewEntry)
        ensures
            r == *self,
    {
        ViewEntry { id: self.id.clone(), title: self.title.clone() }
    }
}

/// What the switch shows.
#[derive(Debug, PartialEq, Eq)]
pub struct ViewSwitcherVM {
    pub views: Vec<ViewEntry>,
    pub active_view_id: String,
    pub density: String,
    pub touch_input: bool,
}

impl Clone for ViewSwitcherVM {
    fn clone(&self) -> (r: ViewSwitcherVM)
        ensures
            r.views@ == self.views@,
            r.active_view_id == self.active_view_id,
            r.density == self.density,
            r.touch_input == self.touch_input,
    {
        ViewSwitcherVM {
            views: copy_views(&self.views),
            active_view_id: self.active_view_id.clone(),
            density: self.density.clone(),
            touch_input: self.touch_input,
        }
    }
}

/// The entries name the views, in document order.
pub open spec fn lists_views(entries: Seq<ViewEntry>, views: Seq<DashView>) -> bool {
    &&& entries.len() == views.len()
    &&& forall|i: int|
        0 <= i < entries.len() ==> (#[trigger] entries[i]).id@ == views[i].id@ && entries[i].title@
            == views[i].title@
}

/// The position of the first entry with this id, or the number of entries where
/// there is none.
pub open spec fn first_position(entries: Seq<ViewEntry>, id: Seq<char>) -> int
    decreases entries.len(),
{
    if entries.len() == 0 || entries[0].id@ == id {
        0
    } else {
        1 + first_position(entries.drop_first(), id)
    }
}

/// The index of the view to show: that of the first entry with this id. Where
/// there is none, or it has no 32-bit index, the first view is shown.
pub open spec fn active_index(entries: Seq<ViewEntry>, id: Seq<char>) -> int {
    let p = first_position(entries, id);
    if p < entries.len() && p <= i32::MAX {
        p
    } else {
        0
    }
}

proof fn lemma_first_position(entries: Seq<ViewEntry>, id: Seq<char>, i: int)
    requires
        0 <= i <= entries.len(),
        forall|j: int| 0 <= j < i ==> (#[trigger] entries[j]).id@ != id,
        i < entries.len() ==> entries[i].id@ == id,
    ensures
        first_position(entries, id) == i,
    decreases i,
{
    if i > 0 {
        let rest = entries.drop_first();
        assert forall|j: int| 0 <= j < i - 1 implies (#[trigger] rest[j]).id@ != id by {
            assert(rest[j] == entries[j + 1]);
        }
        lemma_first_position(rest, id, i - 1);
    }
}

/// The entries for the views of a dashboard.
pub fn view_entries(dashboard: &Dashboard) -> (r: Vec<ViewEntry>)
    ensures
        lists_views(r@, dashboard.views@),
        r@.len() == dashboard.views@.len(),
        forall|i: int|
            0 <= i < r@.len() ==> (#[trigger] r@[i]).id@ == dashboard.views@[i].id@ && r@[i].title@
                == dashboard.views@[i].title@,
{
    let mut out: Vec<ViewEntry> = Vec::new();
    let mut i: usize = 0;
    while i < dashboard.views.len()
        invariant
            i <= dashboard.views@.len(),
            out@.len() == i,
            forall|j: int|
                0 <= j < i ==> (#[trigger] out@[j]).id@ == dashboard.views@[j].id@
                    && out@[j].title@ == dashboard.views@[j].title@,
        decreases dashboard.views@.len() - i,
    {
        let view: &DashView = &dashboard.views[i];
        out.push(ViewEntry { id: view.id.clone(), title: view.title.clone() });
        i = i + 1;
    }
    out
}

/// The index of the view to show.
pub fn active_view_index(views: &Vec<ViewEntry>, id: &String) -> (r: i32)
    ensures
        r == active_index(views@, id@),
        r != 0 ==> 0 < r < views@.len() && views@[r as int].id@ == id@,
        forall|j: int| 0 <= j < r ==> (#[trigger] views@[j]).id@ != id@,
        forall|j: int|
            0 <= j < views@.len() && j <= i32::MAX && (#[trigger] views@[j]).id@ == id@
                ==> views@[r as int].id@ == id@,
{
    let mut i: usize = 0;
    while i < views.len()
        invariant
            i <= views@.len(),
            forall|j: int| 0 <= j < i ==> (#[trigger] views@[j]).id@ != id@,
        decreases views@.len() - i,
    {
        if views[i].id == *id {
            proof {
                lemma_first_position(views@, id@, i as int);
            }
            return if i > 0x7fff_ffff {
                0
            } else {
                i as i32
            };
        }
        i = i + 1;
    }
    proof {
        lemma_first_position(views@, id@, i as int);
    }
    0
}

/// What the switch shows for a dashboard on a device.
pub fn build_view_switcher_vm(dashboard: &Dashboard, profile: &DeviceProfile) -> (r: ViewSwitcherVM)
    ensures
        lists_views(r.views@, dashboard.views@),
        r.active_view_id@ == dashboard.default_view@,
        r.density@ == density_text(profile.density),
        r.touch_input == profile.touch_input,
        r.views@.len() == dashboard.views@.len(),
        forall|i: int|
            0 <= i < r.views@.len() ==> (#[trigger] r.views@[i]).id@ == dashboard.views@[i].id@
                && r.views@[i].title@ == dashboard.views@[i].title@,
        profile.density is Compact ==> r.density@ == "compact"@,
        profile.density is Regular ==> r.density@ == "regular"@,
        profile.density is Spacious ==> r.density@ == "spacious"@,
{
    ViewSwitcherVM {
        views: view_entries(dashboard),
        active_view_id: dashboard.default_view.clone(),
        density: profile.density.word(),
        touch_input: profile.touch_input,
    }
}

/// The properties of the switch's window.
#[derive(Debug, PartialEq, Eq)]
pub struct ViewSwitcherWindow {
    pub views: Vec<ViewEntry>,
    pub active_view_index: i32,
    pub density: String,
    pub touch_input: bool,
}

impl ViewSwitcherWindow {
    /// Switches to another view. Nothing else changes.
    pub fn view_changed(&mut self, index: i32)
        ensures
            *final(self) == (ViewSwitcherWindow { active_view_index: index, ..*old(self) }),
    {
        self.active_view_index = index;
    }
}

/// A copy of entries.
pub fn copy_views(views: &Vec<ViewEntry>) -> (r: Vec<ViewEntry>)
    ensures
        r@ == views@,
{
    let mut out: Vec<ViewEntry> = Vec::new();
    let mut i: usize = 0;
    while i < views.len()
        invariant
            i <= views@.len(),
            out@ =~= views@.take(i as int),
        decreases views@.len() - i,
    {
        out.push(views[i].clone());
        i = i + 1;
    }
    assert(views@.take(i as int) =~= views@);
    out
}

/// Sets the properties of the switch's window.
pub fn wire_view_switcher(switcher: &mut ViewSwitcherWindow, vm: &ViewSwitcherVM)
    ensures
        final(switcher).views@ == vm.views@,
        final(switcher).active_view_index == active_index(vm.views@, vm.active_view_id@),
        final(switcher).density@ == vm.density@,
        final(switcher).touch_input == vm.touch_input,
        final(switcher).active_view_index != 0 ==> 0 < final(switcher).active_view_index
            < vm.views@.len() && vm.views@[final(switcher).active_view_index as int].id@
            == vm.active_view_id@,
        forall|j: int|
            0 <= j < final(switcher).active_view_index ==> (#[trigger] vm.views@[j]).id@
                != vm.active_view_id@,
        forall|j: int|
            0 <= j < vm.views@.len() && j <= i32::MAX && (#[trigger] vm.views@[j]).id@
                == vm.active_view_id@ ==> vm.views@[final(switcher).active_view_index as int].id@
                == vm.active_view_id@,
{
    *switcher = ViewSwitcherWindow {
        views: copy_views(&vm.views),
        active_view_index: active_view_index(&vm.views, &vm.active_view_id),
        density: vm.density.clone(),
        touch_input: vm.touch_input,
    };
}

/// The index of the shown view is that of a view, or the first.
pub proof fn active_index_is_a_view(entries: Seq<ViewEntry>, id: Seq<char>)
    ensures
        0 <= active_index(entries, id) <= i32::MAX,
        entries.len() > 0 ==> active_index(entries, id) < entries.len(),
        active_index(entries, id) > 0 ==> entries[active_index(entries, id)].id@ == id,
{
    lemma_position_is_first(entries, id);
}

proof fn lemma_position_is_first(entries: Seq<ViewEntry>, id: Seq<char>)
    ensures
        0 <= first_position(entries, id) <= entries.len(),
        first_position(entries, id) < entries.len() ==> entries[first_position(entries, id)].id@
            == id,
        forall|j: int|
            0 <= j < first_position(entries, id) ==> (#[trigger] entries[j]).id@ != id,
    decreases entries.len(),
{
    if entries.len() > 0 && entries[0].id@ != id {
        let rest = entries.drop_first();
        lemma_position_is_first(rest, id);
        assert forall|j: int| 0 <= j < first_position(entries, id) implies (
        #[trigger] entries[j]).id@ != id by {
            if j > 0 {
                assert(rest[j - 1] == entries[j]);
            }
        }
    }
}

/// A default view that the dashboard has is the one that is shown, at its first
/// position.
pub proof fn default_view_is_shown(entries: Seq<ViewEntry>, id: Seq<char>, i: int)
    requires
        0 <= i < entries.len() <= i32::MAX,
        entries[i].id@ == id,
    ensures
        entries[active_index(entries, id)].id@ == id,
        active_index(entries, id) <= i,
{
    lemma_position_is_first(entries, id);
}

/// Where no view has the wanted id, the first view is shown.
pub proof fn unknown_view_falls_back_to_the_first(entries: Seq<ViewEntry>, id: Seq<char>)
    requires
        forall|i: int| 0 <= i < entries.len() ==> (#[trigger] entries[i]).id@ != id,
    ensures
        active_index(entries, id) == 0,
{
    lemma_position_is_first(entries, id);
    if first_position(entries, id) < entries.len() {
        assert(entries[first_position(entries, id)].id@ != id);
    }
}

} // verus!
