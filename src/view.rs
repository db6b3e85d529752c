//! What the user interface shows: the breadcrumb trail and either the
//! listing of the current node or the form of the selected leaf.

use vstd::prelude::*;
use crate::bindings::Shortcut;
use crate::commands::{displayable, Command, CommandDisplay};
use crate::state::{lemma_descend_then_back, selected, step, EventView, NavigationView, State};

verus! {

/// The body of the display.
#[derive(Debug, Clone, PartialEq, Eq)]
pub enum AppContent {
    /// The entries to choose from: shortcut and name of each.
    Choices(Vec<CommandDisplay>),
    /// The form of the selected leaf: each variable's name and current text.
    Form(Vec<(String, String)>),
}

/// Everything the user interface renders.
#[derive(Debug, Clone, PartialEq, Eq)]
pub struct AppView {
    /// `Root`, then ` > ` and the name of each breadcrumb.
    pub breadcrumb: String,
    pub content: AppContent,
}

/// The body of the display, with texts as character sequences.
pub enum ContentModel {
    Choices(Seq<(Shortcut, Seq<char>)>),
    Form(Seq<(Seq<char>, Seq<char>)>),
}

/// The display, with texts as character sequences.
pub struct AppModel {
    pub breadcrumb: Seq<char>,
    pub content: ContentModel,
}

impl View for AppView {
    type V = AppModel;

    open spec fn view(&self) -> AppModel {
        AppModel {
            breadcrumb: self.breadcrumb@,
            content: match self.content {
                AppContent::Choices(v) => ContentModel::Choices(
                    v@.map_values(|d: CommandDisplay| d@),
                ),
                AppContent::Form(v) => ContentModel::Form(
                    v@.map_values(|p: (String, String)| (p.0@, p.1@)),
                ),
            },
        }
    }
}

/// The breadcrumb trail: `Root`, then ` > ` and each name in turn.
pub open spec fn breadcrumb_text(path: Seq<(Shortcut, Seq<char>)>) -> Seq<char>
    decreases path.len(),
{
    if path.len() == 0 {
        "Root"@
    } else {
        breadcrumb_text(path.drop_last()) + " > "@ + path.last().1
    }
}

/// What is shown for a state of the engine.
pub open spec fn projection(v: NavigationView) -> AppModel {
    AppModel {
        breadcrumb: breadcrumb_text(v.path),
        content: match selected(v) {
            Command::Leaf(_) => ContentModel::Form(v.form),
            Command::Node(_) => ContentModel::Choices(displayable(selected(v))),
        },
    }
}

/// Renders the current state; it changes nothing, so it may be called for
/// every frame.
pub fn render_app(state: &State) -> (r: AppView)
    ensures
        r@ == projection(state@),
{
    let path = &state.selection_path;
    let mut breadcrumb = "Root".to_string();
    let mut i: usize = 0;
    proof {
        assert(path@.map_values(|d: CommandDisplay| d@).subrange(0, 0) =~= Seq::<
            (Shortcut, Seq<char>),
        >::empty());
    }
    while i < path.len()
        invariant
            i <= path@.len(),
            path == &state.selection_path,
            breadcrumb@ == breadcrumb_text(
                path@.map_values(|d: CommandDisplay| d@).subrange(0, i as int),
            ),
        decreases path@.len() - i,
    {
        breadcrumb.append(" > ");
        breadcrumb.append(path[i].name.as_str());
        proof {
            let crumbs = path@.map_values(|d: CommandDisplay| d@);
            assert(crumbs.subrange(0, i + 1).drop_last() =~= crumbs.subrange(0, i as int));
            assert(crumbs.subrange(0, i + 1).last() == path@[i as int]@);
        }
        i = i + 1;
    }
    proof {
        assert(path@.map_values(|d: CommandDisplay| d@).subrange(0, i as int) =~= state@.path);
    }
    let current = state.selected_command();
    let content = match current {
        Command::Leaf(_) => {
            let entries = state.form_command_task_variables.entries();
            let mut form: Vec<(String, String)> = Vec::new();
            let mut k: usize = 0;
            while k < entries.len()
                invariant
                    k <= entries@.len(),
                    form@.map_values(|p: (String, String)| (p.0@, p.1@)) == entries@.subrange(
                        0,
                        k as int,
                    ).map_values(|p: (String, String)| (p.0@, p.1@)),
                decreases entries@.len() - k,
            {
                let pair = (entries[k].0.clone(), entries[k].1.clone());
                let ghost before = form@;
                form.push(pair);
                proof {
                    let f = |p: (String, String)| (p.0@, p.1@);
                    assert(form@.map_values(f) =~= before.map_values(f).push(f(pair)));
                    assert(entries@.subrange(0, k + 1).map_values(f) =~= entries@.subrange(
                        0,
                        k as int,
                    ).map_values(f).push(f(entries@[k as int])));
                }
                k = k + 1;
            }
            proof {
                assert(entries@.subrange(0, k as int) =~= entries@);
            }
            AppContent::Form(form)
        },
        Command::Node(_) => AppContent::Choices(current.displayable_children()),
    };
    AppView { breadcrumb, content }
}

/// Two states at the same root and breadcrumbs, the first at a node, show
/// the same.
proof fn lemma_projection_at_node(v: NavigationView, w: NavigationView)
    requires
        v.root == w.root,
        v.path == w.path,
        selected(v) is Node,
    ensures
        projection(v) == projection(w),
{
}

/// Descending two levels from the root and going back twice shows exactly
/// what was shown at the root before.
pub proof fn lemma_back_twice_restores_root(v: NavigationView, a: Shortcut, b: Shortcut)
    requires
        v.path.len() == 0,
        step(v, EventView::Press(a)).1 is Descend,
        step(step(v, EventView::Press(a)).0, EventView::Press(b)).1 is Descend,
    ensures
        ({
            let v1 = step(v, EventView::Press(a)).0;
            let v2 = step(v1, EventView::Press(b)).0;
            let (v3, back1) = step(v2, EventView::Back);
            let (v4, back2) = step(v3, EventView::Back);
            &&& back1 is Backtrack
            &&& back2 is Backtrack
            &&& projection(v4) == projection(v)
        }),
{
    let v1 = step(v, EventView::Press(a)).0;
    let v2 = step(v1, EventView::Press(b)).0;
    let v3 = step(v2, EventView::Back).0;
    lemma_descend_then_back(v, a);
    lemma_descend_then_back(v1, b);
    assert(v1.path.len() == 1);
    let v4 = step(v3, EventView::Back).0;
    assert(v4.path =~= v.path);
    lemma_projection_at_node(v, v4);
}

} // verus!
