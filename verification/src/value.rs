//! The typed values that a key can hold.

use vstd::prelude::*;
use crate::score::{is_number, Score};
use crate::text::views;

verus! {

/// A value: exactly one of five variants. Collections keep their items in
/// the order in which they were first added.
#[derive(Debug, Clone, PartialEq)]
pub enum RedoxValue {
    /// A string.
    String(String),
    /// A sequence of strings; duplicates allowed.
    List(Vec<String>),
    /// Distinct members.
    Members(Vec<String>),
    /// Fields with their values; fields distinct.
    Hash(Vec<(String, String)>),
    /// Members with their scores; members distinct.
    SortedSet(Vec<(String, Score)>),
}

/// What a value holds, as sequences of characters.
pub enum ValueView {
    String(Seq<char>),
    List(Seq<Seq<char>>),
    Members(Seq<Seq<char>>),
    Hash(Seq<(Seq<char>, Seq<char>)>),
    SortedSet(Seq<(Seq<char>, (u64, Seq<char>))>),
}

/// The views of named items.
pub open spec fn entry_views<V: View>(v: Seq<(String, V)>) -> Seq<(Seq<char>, V::V)> {
    v.map_values(|p: (String, V)| (p.0@, p.1@))
}

/// The views of field/value pairs.
pub open spec fn pair_views(v: Seq<(String, String)>) -> Seq<(Seq<char>, Seq<char>)> {
    entry_views(v)
}

/// The views of member/score pairs.
pub open spec fn scored_views(v: Seq<(String, Score)>) -> Seq<(Seq<char>, (u64, Seq<char>))> {
    entry_views(v)
}

/// The first components of a sequence of pairs.
pub open spec fn firsts<A, B>(s: Seq<(A, B)>) -> Seq<A> {
    s.map_values(|p: (A, B)| p.0)
}

impl View for RedoxValue {
    type V = ValueView;

    open spec fn view(&self) -> ValueView {
        match self {
            RedoxValue::String(s) => ValueView::String(s@),
            RedoxValue::List(items) => ValueView::List(views(items@)),
            RedoxValue::Members(members) => ValueView::Members(views(members@)),
            RedoxValue::Hash(fields) => ValueView::Hash(pair_views(fields@)),
            RedoxValue::SortedSet(members) => ValueView::SortedSet(scored_views(members@)),
        }
    }
}

impl RedoxValue {
    /// The variant of the value.
    pub fn kind(&self) -> (r: Kind)
        ensures
            r == self@.kind(),
    {
        match self {
            RedoxValue::String(_) => Kind::String,
            RedoxValue::List(_) => Kind::List,
            RedoxValue::Members(_) => Kind::Members,
            RedoxValue::Hash(_) => Kind::Hash,
            RedoxValue::SortedSet(_) => Kind::SortedSet,
        }
    }

    /// Whether the value is a string.
    pub fn is_string(&self) -> (r: bool)
        ensures
            r == (self@ is String),
    {
        match self {
            RedoxValue::String(_) => true,
            _ => false,
        }
    }

    /// Whether the value is a list.
    pub fn is_list(&self) -> (r: bool)
        ensures
            r == (self@ is List),
    {
        match self {
            RedoxValue::List(_) => true,
            _ => false,
        }
    }

    /// Whether the value is a set.
    pub fn is_members(&self) -> (r: bool)
        ensures
            r == (self@ is Members),
    {
        match self {
            RedoxValue::Members(_) => true,
            _ => false,
        }
    }

    /// Whether the value is a hash.
    pub fn is_hash(&self) -> (r: bool)
        ensures
            r == (self@ is Hash),
    {
        match self {
            RedoxValue::Hash(_) => true,
            _ => false,
        }
    }

    /// Whether the value is a sorted set.
    pub fn is_sorted_set(&self) -> (r: bool)
        ensures
            r == (self@ is SortedSet),
    {
        match self {
            RedoxValue::SortedSet(_) => true,
            _ => false,
        }
    }
}

/// The five variants.
#[derive(Debug, Clone, Copy, PartialEq, Eq, Structural)]
pub enum Kind {
    String,
    List,
    Members,
    Hash,
    SortedSet,
}

impl ValueView {
    /// The variant of the value.
    pub open spec fn kind(self) -> Kind {
        match self {
            ValueView::String(_) => Kind::String,
            ValueView::List(_) => Kind::List,
            ValueView::Members(_) => Kind::Members,
            ValueView::Hash(_) => Kind::Hash,
            ValueView::SortedSet(_) => Kind::SortedSet,
        }
    }

    /// The variant's invariant: members of a set, fields of a hash and
    /// members of a sorted set are distinct, and every score is a number.
    pub open spec fn wf(self) -> bool {
        match self {
            ValueView::String(_) => true,
            ValueView::List(_) => true,
            ValueView::Members(members) => members.no_duplicates(),
            ValueView::Hash(fields) => firsts(fields).no_duplicates(),
            ValueView::SortedSet(members) => {
                &&& firsts(members).no_duplicates()
                &&& forall|i: int| 0 <= i < members.len() ==> is_number((#[trigger] members[i]).1.0)
            },
        }
    }
}

} // verus!
