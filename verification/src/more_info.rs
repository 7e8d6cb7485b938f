//! Which dialog tells more about an entity.
use crate::entity::EntityId;
use crate::schema::{Dashboard, Widget, WidgetKind, WidgetOptions};
use vstd::prelude::*;

verus! {

/// The body of the dialog.
#[derive(Debug)]
pub enum BodyChoice<'a> {
    /// The one for a kind of widget, with the widget's options.
    ForWidget { kind: WidgetKind, options: Option<&'a WidgetOptions> },
    /// A plain list of attributes.
    Attributes,
}

/// The widget names this entity.
pub open spec fn names_entity(w: Widget, id: Seq<char>) -> bool {
    match w.entity {
        Some(s) => s@ == id,
        None => false,
    }
}

/// The body that widget `w` asks for.
pub open spec fn body_of<'a>(w: Widget) -> BodyChoice<'a> {
    BodyChoice::ForWidget {
        kind: w.widget_type,
        options: match w.options {
            Some(o) => Some(&o),
            None => None,
        },
    }
}

/// Widget `i` is the first one that names the entity, in document order.
pub open spec fn decides(widgets: Seq<Widget>, id: Seq<char>, i: int) -> bool {
    &&& 0 <= i < widgets.len()
    &&& names_entity(widgets[i], id)
    &&& forall|j: int| 0 <= j < i ==> !names_entity(#[trigger] widgets[j], id)
}

/// No widget names the entity.
pub open spec fn nobody_names(widgets: Seq<Widget>, id: Seq<char>) -> bool {
    forall|i: int| 0 <= i < widgets.len() ==> !names_entity(#[trigger] widgets[i], id)
}

/// The document index of the widget whose dialog is opened for an entity: the first
/// one that names it.
pub fn more_info_widget_index(entity_id: &EntityId, dashboard: &Dashboard) -> (r: Option<usize>)
    ensures
        r is None <==> nobody_names(dashboard.widgets(), entity_id@),
        r matches Some(i) ==> decides(dashboard.widgets(), entity_id@, i as int),
        r matches Some(i) ==> i < dashboard.widgets().len() && (
        dashboard.widgets()[i as int].entity matches Some(s) && s@ == entity_id.text@),
        forall|j: int|
            0 <= j < dashboard.widgets().len() && (r is None || j < r.unwrap()) ==> ((
            #[trigger] dashboard.widgets()[j]).entity matches Some(s) ==> s@ != entity_id.text@),
{
    let widgets: Vec<&Widget> = dashboard.widget_list();
    let ghost all = dashboard.widgets();
    let mut i: usize = 0;
    while i < widgets.len()
        invariant
            i <= widgets@.len() == all.len(),
            all == dashboard.widgets(),
            forall|j: int| 0 <= j < all.len() ==> *(#[trigger] widgets@[j]) == all[j],
            forall|j: int| 0 <= j < i ==> !names_entity(#[trigger] all[j], entity_id@),
        decreases widgets@.len() - i,
    {
        let found: bool = match &widgets[i].entity {
            Some(s) => *s == entity_id.text,
            None => false,
        };
        assert(found == names_entity(all[i as int], entity_id@));
        if found {
            return Some(i);
        }
        i = i + 1;
    }
    None
}

/// The body for an entity: that of the first widget that names it, in document
/// order, or the list of attributes where none does.
pub fn select_more_info_body<'a>(entity_id: &EntityId, dashboard: &'a Dashboard) -> (r: BodyChoice<
    'a,
>)
    ensures
        r is Attributes <==> nobody_names(dashboard.widgets(), entity_id@),
        r is ForWidget ==> exists|i: int|
            #[trigger] decides(dashboard.widgets(), entity_id@, i) && r == body_of(
                dashboard.widgets()[i],
            ),
        r matches BodyChoice::ForWidget { kind, options } ==> exists|i: int|
            0 <= i < dashboard.widgets().len() && kind == (
            #[trigger] dashboard.widgets()[i]).widget_type && (options is Some
                <==> dashboard.widgets()[i].options is Some) && (options is Some
                ==> *options.unwrap() == dashboard.widgets()[i].options.unwrap()) && decides(
                dashboard.widgets(),
                entity_id@,
                i,
            ),
{
    match more_info_widget_index(entity_id, dashboard) {
        Some(i) => {
            let widget: &'a Widget = dashboard.widget_list()[i];
            assert(decides(dashboard.widgets(), entity_id@, i as int));
            BodyChoice::ForWidget {
                kind: widget.widget_type,
                options: match &widget.options {
                    Some(o) => Some(o),
                    None => None,
                },
            }
        },
        None => BodyChoice::Attributes,
    }
}

/// One widget decides, at most.
pub proof fn one_widget_decides(widgets: Seq<Widget>, id: Seq<char>, i: int, j: int)
    requires
        decides(widgets, id, i),
        decides(widgets, id, j),
    ensures
        i == j,
{
}

/// The widget that decides names the entity, and none before it does.
pub proof fn first_widget_decides(widgets: Seq<Widget>, id: Seq<char>, i: int)
    ensures
        decides(widgets, id, i) <==> {
            &&& 0 <= i < widgets.len()
            &&& widgets[i].entity is Some
            &&& widgets[i].entity.unwrap()@ == id
            &&& forall|j: int|
                0 <= j < i ==> !((#[trigger] widgets[j]).entity is Some
                    && widgets[j].entity.unwrap()@ == id)
        },
        nobody_names(widgets, id) <==> forall|j: int|
            0 <= j < widgets.len() ==> !((#[trigger] widgets[j]).entity is Some
                && widgets[j].entity.unwrap()@ == id),
{
    if forall|j: int|
        0 <= j < i ==> !((#[trigger] widgets[j]).entity is Some && widgets[j].entity.unwrap()@
            == id) {
        assert forall|j: int| 0 <= j < i implies !names_entity(#[trigger] widgets[j], id) by {
            assert(!(widgets[j].entity is Some && widgets[j].entity.unwrap()@ == id));
        }
    }
    if forall|j: int|
        0 <= j < widgets.len() ==> !((#[trigger] widgets[j]).entity is Some
            && widgets[j].entity.unwrap()@ == id) {
        assert forall|j: int| 0 <= j < widgets.len() implies !names_entity(
            #[trigger] widgets[j],
            id,
        ) by {
            assert(!(widgets[j].entity is Some && widgets[j].entity.unwrap()@ == id));
        }
    }
    if decides(widgets, id, i) {
        assert forall|j: int| 0 <= j < i implies !((#[trigger] widgets[j]).entity is Some
            && widgets[j].entity.unwrap()@ == id) by {
            assert(!names_entity(widgets[j], id));
        }
    }
    if nobody_names(widgets, id) {
        assert forall|j: int| 0 <= j < widgets.len() implies !((
        #[trigger] widgets[j]).entity is Some && widgets[j].entity.unwrap()@ == id) by {
            assert(!names_entity(widgets[j], id));
        }
    }
}

} // verus!
