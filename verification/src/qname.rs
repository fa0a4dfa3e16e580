//! Qualified names: a local name with an optional prefix.

use crate::text::push_text;
use vstd::prelude::*;

verus! {

/// A name written as `prefix:name`, or `:name` in the default namespace.
#[derive(Debug)]
pub struct QName {
    prefix: Option<String>,
    name: String,
}

/// The mathematical content of a [`QName`].
pub struct QNameView {
    pub prefix: Option<Seq<char>>,
    pub name: Seq<char>,
}

impl QNameView {
    /// The name as it is written.
    pub open spec fn text(self) -> Seq<char> {
        match self.prefix {
            Some(prefix) => prefix + ":"@ + self.name,
            None => ":"@ + self.name,
        }
    }
}

impl View for QName {
    type V = QNameView;

    closed spec fn view(&self) -> QNameView {
        QNameView {
            prefix: match self.prefix {
                Some(prefix) => Some(prefix@),
                None => None,
            },
            name: self.name@,
        }
    }
}

impl QName {
    /// The name `name` in the default namespace.
    pub fn new(name: &str) -> (r: QName)
        ensures
            r@ == (QNameView { prefix: None, name: name@ }),
    {
        QName { prefix: None, name: name.to_owned() }
    }

    /// The name `name` in the namespace that `prefix` stands for.
    pub fn with_prefix(prefix: &str, name: &str) -> (r: QName)
        ensures
            r@ == (QNameView { prefix: Some(prefix@), name: name@ }),
    {
        QName { prefix: Some(prefix.to_owned()), name: name.to_owned() }
    }

    /// The prefix, if the name has one.
    pub fn prefix(&self) -> (r: &Option<String>)
        ensures
            match r {
                Some(prefix) => self@.prefix == Some(prefix@),
                None => self@.prefix is None,
            },
    {
        &self.prefix
    }

    /// The local name.
    pub fn name(&self) -> (r: &String)
        ensures
            r@ == self@.name,
    {
        &self.name
    }

    /// The name as it is written.
    pub fn to_string(&self) -> (r: String)
        ensures
            r@ == self@.text(),
    {
        let mut out = String::new();
        match &self.prefix {
            Some(prefix) => {
                push_text(&mut out, prefix.as_str());
            },
            None => {},
        }
        push_text(&mut out, ":");
        push_text(&mut out, self.name.as_str());
        out
    }
}

} // verus!
