//! The typed pieces of a decomposed path.

use vstd::prelude::*;

verus! {

/// One typed piece of a decomposed path.
///
/// `Prefix` carries a platform-specific non-separator anchor (such as a
/// drive letter); its payload is opaque and only ever preserved. `Root`
/// marks an absolute path's anchor and carries the separator text it was
/// written with. `Current` is a "this directory" marker, `Parent` a
/// "go up one level" marker, and `Segment` a plain named element.
#[derive(Debug, PartialEq, Eq)]
pub enum PathComponent {
    Prefix(String),
    Root(String),
    Current,
    Parent,
    Segment(String),
}

/// The mathematical model of a component: the same five variants with
/// string payloads abstracted to character sequences.
pub enum ComponentModel {
    Prefix(Seq<char>),
    Root(Seq<char>),
    Current,
    Parent,
    Segment(Seq<char>),
}

impl View for PathComponent {
    type V = ComponentModel;

    open spec fn view(&self) -> ComponentModel {
        match self {
            PathComponent::Prefix(s) => ComponentModel::Prefix(s@),
            PathComponent::Root(s) => ComponentModel::Root(s@),
            PathComponent::Current => ComponentModel::Current,
            PathComponent::Parent => ComponentModel::Parent,
            PathComponent::Segment(s) => ComponentModel::Segment(s@),
        }
    }
}

impl DeepView for PathComponent {
    type V = ComponentModel;

    open spec fn deep_view(&self) -> ComponentModel {
        self.view()
    }
}

/// The two-character name `..`, the textual form of a parent marker.
pub open spec fn dot_dot() -> Seq<char> {
    seq!['.', '.']
}

impl PathComponent {
    /// A fresh component equal in model to this one.
    pub fn duplicate(&self) -> (c: PathComponent)
        ensures
            c@ == self@,
    {
        match self {
            PathComponent::Prefix(s) => PathComponent::Prefix(s.clone()),
            PathComponent::Root(s) => PathComponent::Root(s.clone()),
            PathComponent::Current => PathComponent::Current,
            PathComponent::Parent => PathComponent::Parent,
            PathComponent::Segment(s) => PathComponent::Segment(s.clone()),
        }
    }
}

/// True exactly when `name` is the literal two-dot parent name.
pub fn is_dot_dot(name: &String) -> (b: bool)
    ensures
        b == (name@ == dot_dot()),
{
    if name.as_str().unicode_len() == 2 {
        let c0 = name.as_str().get_char(0);
        let c1 = name.as_str().get_char(1);
        if c0 == '.' && c1 == '.' {
            proof {
                assert(name@ =~= dot_dot());
            }
            true
        } else {
            proof {
                assert(name@ != dot_dot());
            }
            false
        }
    } else {
        proof {
            assert(dot_dot().len() == 2);
        }
        false
    }
}

} // verus!
