//! The parse-site breadcrumb: where in the grammar the parser sits.
//!
//! A `Context` links to the context of its grammatical parent and
//! carries a tag describing what is known at this site. Contexts are
//! immutable once created; parse errors keep the context of the site
//! that failed.

use vstd::prelude::*;
use crate::child_map::ChildMap;
use crate::model::ModelView;

verus! {

/// What a parse site knows of its siblings: nothing, or the siblings
/// parsed so far, as an ordered composite would record them.
#[derive(Debug)]
pub enum Children {
    /// A leaf context: nothing is known.
    Zilch,
    /// The already-parsed siblings of the site.
    Siblings(ChildMap),
}

/// A parse-site breadcrumb with a link to its parent's context.
#[derive(Debug)]
pub struct Context {
    parent: Option<Box<Context>>,
    children: Children,
}

/// The abstract value of a `Children` tag.
pub enum ChildrenView {
    /// Nothing is known at the site.
    Zilch,
    /// The sibling schema and the siblings parsed so far.
    Siblings(Seq<Seq<char>>, Seq<ModelView>),
}

/// The abstract value of a context: its parent chain and its tag.
pub struct ContextView {
    /// The parent context's value, where there is a parent.
    pub parent: Option<Box<ContextView>>,
    /// The tag's value.
    pub children: ChildrenView,
}

/// The abstract value of a context.
pub closed spec fn ctx_view(c: Context) -> ContextView
    decreases c,
{
    ContextView {
        parent: match c.parent {
            Option::None => Option::None,
            Option::Some(b) => Option::Some(Box::new(ctx_view(*b))),
        },
        children: match c.children {
            Children::Zilch => ChildrenView::Zilch,
            Children::Siblings(cm) => ChildrenView::Siblings(cm.schema(), cm.vals_view()),
        },
    }
}

impl View for Context {
    type V = ContextView;

    closed spec fn view(&self) -> ContextView {
        ctx_view(*self)
    }
}

impl Context {
    /// Builds a context under the given parent with the given tag.
    pub fn new(parent: Option<Box<Context>>, children: Children) -> (r: Context)
        ensures
            r@.parent == (match parent {
                Option::None => Option::<Box<ContextView>>::None,
                Option::Some(b) => Option::Some(Box::new((*b)@)),
            }),
            r@.children == (match children {
                Children::Zilch => ChildrenView::Zilch,
                Children::Siblings(cm) => ChildrenView::Siblings(cm.schema(), cm.vals_view()),
            }),
    {
        Context { parent, children }
    }
}

impl Clone for Context {
    /// A context with the same abstract value.
    fn clone(&self) -> (r: Self)
        ensures
            r@ == self@,
        decreases *self,
    {
        let parent = match &self.parent {
            Option::None => Option::None,
            Option::Some(b) => Option::Some(Box::new((**b).clone())),
        };
        let children = match &self.children {
            Children::Zilch => Children::Zilch,
            Children::Siblings(cm) => Children::Siblings(cm.clone()),
        };
        let r = Context { parent, children };
        proof {
            assert(r@ == self@);
        }
        r
    }
}

} // verus!
