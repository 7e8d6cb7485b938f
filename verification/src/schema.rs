//! The dashboard as it is configured: views of sections of widgets.
use vstd::prelude::*;

verus! {

/// The kind of a widget.
#[derive(Clone, Copy, Debug, PartialEq, Eq, Structural)]
pub enum WidgetKind {
    LightTile,
    SensorTile,
    EntityTile,
    Cover,
    Fan,
    Lock,
    Alarm,
    History,
    Camera,
    Climate,
    MediaPlayer,
    PowerFlow,
}

/// The size a widget asks for.
#[derive(Clone, Copy, Debug, PartialEq, Eq, Structural)]
pub struct WidgetLayout {
    pub preferred_columns: u8,
    pub preferred_rows: u8,
}

/// A fixed place for a widget.
#[derive(Clone, Copy, Debug, PartialEq, Eq, Structural)]
pub struct Placement {
    pub col: u8,
    pub row: u8,
    pub span_cols: u8,
    pub span_rows: u8,
}

/// Options of a widget.
#[derive(Debug)]
pub enum WidgetOptions {
    /// The entities behind the lanes of a power-flow widget.
    PowerFlow {
        grid_entity: String,
        solar_entity: Option<String>,
        battery_entity: Option<String>,
        battery_soc_entity: Option<String>,
        home_entity: Option<String>,
    },
    /// Options that only the dialog of the widget reads, as they are written in the
    /// configuration.
    Other { text: String },
}

/// A widget.
#[derive(Debug)]
pub struct Widget {
    pub id: String,
    pub widget_type: WidgetKind,
    pub entity: Option<String>,
    pub name: Option<String>,
    pub icon: Option<String>,
    pub layout: WidgetLayout,
    pub options: Option<WidgetOptions>,
    pub placement: Option<Placement>,
}

/// The grid of a section.
#[derive(Clone, Copy, Debug, PartialEq, Eq, Structural)]
pub struct SectionGrid {
    pub columns: u8,
    pub gap: u8,
}

/// A titled grid of widgets.
#[derive(Debug)]
pub struct Section {
    pub id: String,
    pub title: String,
    pub grid: SectionGrid,
    pub widgets: Vec<Widget>,
}

/// A view: a page of sections.
#[derive(Debug)]
pub struct DashView {
    pub id: String,
    pub title: String,
    pub sections: Vec<Section>,
}

/// A dashboard.
#[derive(Debug)]
pub struct Dashboard {
    pub default_view: String,
    pub views: Vec<DashView>,
}

/// The sections of some views, in document order.
pub open spec fn sections_of(views: Seq<DashView>) -> Seq<Section>
    decreases views.len(),
{
    if views.len() == 0 {
        Seq::empty()
    } else {
        sections_of(views.drop_last()) + views.last().sections@
    }
}

/// For each section of some views, in document order, the index of its view.
pub open spec fn section_views_of(views: Seq<DashView>) -> Seq<int>
    decreases views.len(),
{
    if views.len() == 0 {
        Seq::empty()
    } else {
        section_views_of(views.drop_last()) + Seq::new(
            views.last().sections@.len(),
            |i: int| views.len() - 1,
        )
    }
}

/// The widgets of some sections, in document order.
pub open spec fn widgets_of(sections: Seq<Section>) -> Seq<Widget>
    decreases sections.len(),
{
    if sections.len() == 0 {
        Seq::empty()
    } else {
        widgets_of(sections.drop_last()) + sections.last().widgets@
    }
}

/// The document index of the first widget of section `k`.
pub open spec fn section_start(sections: Seq<Section>, k: int) -> int {
    widgets_of(sections.take(k)).len() as int
}

/// The number of sections in the views before view `v`.
pub open spec fn sections_before(views: Seq<DashView>, v: int) -> int
    decreases v,
{
    if v <= 0 {
        0
    } else {
        sections_before(views, v - 1) + views[v - 1].sections@.len()
    }
}

/// The document index of section `s` of view `v`.
pub open spec fn section_place(views: Seq<DashView>, v: int, s: int) -> int {
    sections_before(views, v) + s
}

/// The number of widgets in the sections before section `k`.
pub open spec fn widgets_before(sections: Seq<Section>, k: int) -> int
    decreases k,
{
    if k <= 0 {
        0
    } else {
        widgets_before(sections, k - 1) + sections[k - 1].widgets@.len()
    }
}

/// The number of widgets in the views before view `v`.
pub open spec fn view_widgets_before(views: Seq<DashView>, v: int) -> int
    decreases v,
{
    if v <= 0 {
        0
    } else {
        view_widgets_before(views, v - 1) + widgets_before(
            views[v - 1].sections@,
            views[v - 1].sections@.len() as int,
        )
    }
}

/// The document index of widget `w` of section `s` of view `v`.
pub open spec fn widget_place(views: Seq<DashView>, v: int, s: int, w: int) -> int {
    view_widgets_before(views, v) + widgets_before(views[v].sections@, s) + w
}

/// The sections of a view stand behind those of the views before it, in their order,
/// and each is told to belong to that view.
pub proof fn section_stands_at_its_place(views: Seq<DashView>, v: int, s: int)
    requires
        0 <= v < views.len(),
        0 <= s < views[v].sections@.len(),
    ensures
        0 <= section_place(views, v, s) < sections_of(views).len(),
        section_views_of(views).len() == sections_of(views).len(),
        sections_of(views)[section_place(views, v, s)] == views[v].sections@[s],
        section_views_of(views)[section_place(views, v, s)] == v,
    decreases views.len(),
{
    let rest = views.drop_last();
    section_count_adds_up(rest);
    lemma_same_sections_before(rest, views, rest.len() as int);
    if v < rest.len() {
        section_stands_at_its_place(rest, v, s);
        lemma_same_sections_before(rest, views, v);
    }
}

/// There are as many sections as the views hold together.
pub proof fn section_count_adds_up(views: Seq<DashView>)
    ensures
        sections_of(views).len() == sections_before(views, views.len() as int),
        section_views_of(views).len() == sections_of(views).len(),
    decreases views.len(),
{
    if views.len() > 0 {
        let rest = views.drop_last();
        section_count_adds_up(rest);
        lemma_same_sections_before(rest, views, rest.len() as int);
    }
}

proof fn lemma_same_sections_before(rest: Seq<DashView>, views: Seq<DashView>, v: int)
    requires
        views.len() > 0,
        rest == views.drop_last(),
        0 <= v <= rest.len(),
    ensures
        sections_before(rest, v) == sections_before(views, v),
        0 <= sections_before(views, v),
    decreases v,
{
    if v > 0 {
        lemma_same_sections_before(rest, views, v - 1);
    }
}

/// Every section stands at the place of some section of some view.
pub proof fn every_section_has_a_place(views: Seq<DashView>, k: int) -> (r: (int, int))
    requires
        0 <= k < sections_of(views).len(),
    ensures
        0 <= r.0 < views.len(),
        0 <= r.1 < views[r.0].sections@.len(),
        section_place(views, r.0, r.1) == k,
    decreases views.len(),
{
    let rest = views.drop_last();
    section_count_adds_up(rest);
    lemma_same_sections_before(rest, views, rest.len() as int);
    if k < sections_of(rest).len() {
        let (v, s) = every_section_has_a_place(rest, k);
        lemma_same_sections_before(rest, views, v);
        (v, s)
    } else {
        (rest.len() as int, k - sections_of(rest).len())
    }
}

/// The widgets of a section stand behind those of the sections before it, in their
/// order.
pub proof fn widget_stands_in_its_section(sections: Seq<Section>, k: int, w: int)
    requires
        0 <= k < sections.len(),
        0 <= w < sections[k].widgets@.len(),
    ensures
        section_start(sections, k) == widgets_before(sections, k),
        0 <= widgets_before(sections, k) + w < widgets_of(sections).len(),
        widgets_of(sections)[widgets_before(sections, k) + w] == sections[k].widgets@[w],
    decreases sections.len(),
{
    let rest = sections.drop_last();
    lemma_section_start_adds_up(sections, k);
    lemma_section_start_adds_up(sections, rest.len() as int);
    assert(sections.take(rest.len() as int) =~= rest);
    if k < rest.len() {
        widget_stands_in_its_section(rest, k, w);
        lemma_section_start_adds_up(rest, k);
        assert(rest.take(k) =~= sections.take(k));
    }
}

/// The widgets before a section are those of the sections before it, together.
pub proof fn lemma_section_start_adds_up(sections: Seq<Section>, k: int)
    requires
        0 <= k <= sections.len(),
    ensures
        section_start(sections, k) == widgets_before(sections, k),
    decreases k,
{
    if k > 0 {
        lemma_section_start_adds_up(sections, k - 1);
        assert(sections.take(k).drop_last() =~= sections.take(k - 1));
    }
}

/// The widgets of a dashboard stand in the order of its views, of the sections of a
/// view, and of the widgets of a section.
pub proof fn widget_stands_at_its_place(views: Seq<DashView>, v: int, s: int, w: int)
    requires
        0 <= v < views.len(),
        0 <= s < views[v].sections@.len(),
        0 <= w < views[v].sections@[s].widgets@.len(),
    ensures
        section_start(sections_of(views), section_place(views, v, s)) + w == widget_place(
            views,
            v,
            s,
            w,
        ),
        0 <= widget_place(views, v, s, w) < widgets_of(sections_of(views)).len(),
        widgets_of(sections_of(views))[widget_place(views, v, s, w)]
            == views[v].sections@[s].widgets@[w],
{
    section_stands_at_its_place(views, v, s);
    widget_stands_in_its_section(sections_of(views), section_place(views, v, s), w);
    lemma_widgets_before(views, v, s);
}

/// The widgets before a section, counted section by section or view by view.
proof fn lemma_widgets_before(views: Seq<DashView>, v: int, s: int)
    requires
        0 <= v < views.len(),
        0 <= s <= views[v].sections@.len(),
    ensures
        widgets_before(sections_of(views), section_place(views, v, s)) == view_widgets_before(
            views,
            v,
        ) + widgets_before(views[v].sections@, s),
    decreases v, s,
{
    lemma_sections_before_bounds(views, v);
    if s > 0 {
        lemma_widgets_before(views, v, s - 1);
        section_stands_at_its_place(views, v, s - 1);
    } else if v > 0 {
        lemma_widgets_before(views, v - 1, views[v - 1].sections@.len() as int);
    }
}

proof fn lemma_sections_before_bounds(views: Seq<DashView>, v: int)
    ensures
        0 <= sections_before(views, v),
    decreases v,
{
    if v > 0 {
        lemma_sections_before_bounds(views, v - 1);
    }
}

impl Widget {
    /// The id the widget is bound to, empty where there is none.
    pub open spec fn bound_id(self) -> Seq<char> {
        match self.entity {
            Some(s) => s@,
            None => Seq::empty(),
        }
    }
}

impl Section {
    /// The columns that tiles are packed into: one at least.
    pub open spec fn grid_columns(self) -> int {
        if self.grid.columns == 0 {
            1
        } else {
            self.grid.columns as int
        }
    }
}

impl Dashboard {
    /// All sections in document order.
    pub open spec fn sections(self) -> Seq<Section> {
        sections_of(self.views@)
    }

    /// All widgets in document order.
    pub open spec fn widgets(self) -> Seq<Widget> {
        widgets_of(self.sections())
    }

    /// References to all sections in document order, each with the index of its
    /// view.
    pub fn section_list(&self) -> (r: Vec<(usize, &Section)>)
        ensures
            r@.len() == self.sections().len(),
            section_views_of(self.views@).len() == r@.len(),
            forall|i: int|
                0 <= i < r@.len() ==> *(#[trigger] r@[i]).1 == self.sections()[i] && r@[i].0
                    == section_views_of(self.views@)[i] && r@[i].0 < self.views@.len(),
            r@.len() == sections_before(self.views@, self.views@.len() as int),
            forall|v: int, s: int|
                0 <= v < self.views@.len() && 0 <= s < self.views@[v].sections@.len() ==> (
                #[trigger] r@[section_place(self.views@, v, s)]).0 == v && *r@[section_place(
                    self.views@,
                    v,
                    s,
                )].1 == self.views@[v].sections@[s],
    {
        let mut out: Vec<(usize, &Section)> = Vec::new();
        let mut v: usize = 0;
        while v < self.views.len()
            invariant
                v <= self.views@.len(),
                out@.len() == sections_of(self.views@.take(v as int)).len(),
                section_views_of(self.views@.take(v as int)).len() == out@.len(),
                forall|i: int|
                    0 <= i < out@.len() ==> *(#[trigger] out@[i]).1 == sections_of(
                        self.views@.take(v as int),
                    )[i] && out@[i].0 == section_views_of(self.views@.take(v as int))[i]
                        && out@[i].0 < self.views@.len(),
            decreases self.views@.len() - v,
        {
            let ghost base = sections_of(self.views@.take(v as int));
            let ghost base_views = section_views_of(self.views@.take(v as int));
            let sections: &Vec<Section> = &self.views[v].sections;
            let mut s: usize = 0;
            while s < sections.len()
                invariant
                    v < self.views@.len(),
                    sections@ == self.views@[v as int].sections@,
                    s <= sections@.len(),
                    base.len() == base_views.len(),
                    out@.len() == base.len() + s,
                    forall|i: int|
                        0 <= i < out@.len() ==> *(#[trigger] out@[i]).1 == (base + sections@)[i]
                            && out@[i].0 == (if i < base.len() {
                            base_views[i]
                        } else {
                            v as int
                        }) && out@[i].0 < self.views@.len(),
                decreases sections@.len() - s,
            {
                out.push((v, &sections[s]));
                s = s + 1;
            }
            proof {
                let next = self.views@.take(v + 1);
                assert(next.drop_last() =~= self.views@.take(v as int));
                assert(next.last() == self.views@[v as int]);
            }
            v = v + 1;
        }
        proof {
            assert(self.views@.take(v as int) =~= self.views@);
            section_count_adds_up(self.views@);
            assert forall|a: int, b: int|
                0 <= a < self.views@.len() && 0 <= b < self.views@[a].sections@.len() implies (
            #[trigger] out@[section_place(self.views@, a, b)]).0 == a && *out@[section_place(
                self.views@,
                a,
                b,
            )].1 == self.views@[a].sections@[b] by {
                section_stands_at_its_place(self.views@, a, b);
            }
        }
        out
    }

    /// References to all widgets in document order.
    pub fn widget_list(&self) -> (r: Vec<&Widget>)
        ensures
            r@.len() == self.widgets().len(),
            forall|i: int| 0 <= i < r@.len() ==> *(#[trigger] r@[i]) == self.widgets()[i],
            forall|v: int, s: int, w: int|
                0 <= v < self.views@.len() && 0 <= s < self.views@[v].sections@.len() && 0 <= w
                    < self.views@[v].sections@[s].widgets@.len() ==> *(#[trigger] r@[widget_place(
                    self.views@,
                    v,
                    s,
                    w,
                )]) == self.views@[v].sections@[s].widgets@[w],
    {
        let sections: Vec<(usize, &Section)> = self.section_list();
        let mut out: Vec<&Widget> = Vec::new();
        let mut k: usize = 0;
        let ghost all = self.sections();
        while k < sections.len()
            invariant
                k <= sections@.len() == all.len(),
                forall|i: int| 0 <= i < all.len() ==> *(#[trigger] sections@[i]).1 == all[i],
                out@.len() == widgets_of(all.take(k as int)).len(),
                forall|i: int|
                    0 <= i < out@.len() ==> *(#[trigger] out@[i]) == widgets_of(
                        all.take(k as int),
                    )[i],
            decreases sections@.len() - k,
        {
            let ghost base = widgets_of(all.take(k as int));
            let section: &Section = sections[k].1;
            let mut w: usize = 0;
            while w < section.widgets.len()
                invariant
                    w <= section.widgets@.len(),
                    out@.len() == base.len() + w,
                    forall|i: int|
                        0 <= i < out@.len() ==> *(#[trigger] out@[i]) == (base
                            + section.widgets@)[i],
                decreases section.widgets@.len() - w,
            {
                out.push(&section.widgets[w]);
                w = w + 1;
            }
            proof {
                let next = all.take(k + 1);
                assert(next.drop_last() =~= all.take(k as int));
                assert(next.last() == *section);
            }
            k = k + 1;
        }
        proof {
            assert(all.take(k as int) =~= all);
            assert forall|a: int, b: int, c: int|
                0 <= a < self.views@.len() && 0 <= b < self.views@[a].sections@.len() && 0 <= c
                    < self.views@[a].sections@[b].widgets@.len() implies *(
            #[trigger] out@[widget_place(self.views@, a, b, c)])
                == self.views@[a].sections@[b].widgets@[c] by {
                widget_stands_at_its_place(self.views@, a, b, c);
            }
        }
        out
    }
}

} // verus!
