//! The table of prefixes: each prefix, or the default prefix, stands for one
//! namespace. The table keeps the order in which the prefixes were bound.

use crate::error::{Error, ErrorView};
use crate::iri::Iri;
use crate::qname::{QName, QNameView};
use crate::text::{chars_of, has_prefix, starts_with, string_of_range};
use vstd::prelude::*;
use vstd::std_specs::cmp::PartialEqSpecImpl;

verus! {

/// What stands before the colon of a qualified name.
#[derive(Debug, Hash)]
pub enum Prefix {
    /// Nothing: the default namespace.
    Default,
    /// A name.
    Named(String),
}

impl View for Prefix {
    type V = Option<Seq<char>>;

    open spec fn view(&self) -> Option<Seq<char>> {
        match self {
            Prefix::Default => None,
            Prefix::Named(name) => Some(name@),
        }
    }
}

impl Clone for Prefix {
    fn clone(&self) -> (r: Self)
        ensures
            r@ == self@,
    {
        match self {
            Prefix::Default => Prefix::Default,
            Prefix::Named(name) => Prefix::Named(name.clone()),
        }
    }
}

impl PartialEq for Prefix {
    fn eq(&self, other: &Self) -> (r: bool) {
        match (self, other) {
            (Prefix::Default, Prefix::Default) => true,
            (Prefix::Named(a), Prefix::Named(b)) => *a == *b,
            _ => false,
        }
    }
}

impl Eq for Prefix {

}

impl PartialEqSpecImpl for Prefix {
    open spec fn obeys_eq_spec() -> bool {
        true
    }

    open spec fn eq_spec(&self, other: &Self) -> bool {
        self@ == other@
    }
}

/// One line of the table: a prefix and the namespace that it stands for.
pub type Binding = (Option<Seq<char>>, Seq<char>);

/// The index of the binding of `prefix` among the first `upto` bindings, or
/// -1.
pub open spec fn bound_at(bindings: Seq<Binding>, prefix: Option<Seq<char>>, upto: int) -> int
    decreases upto,
{
    if upto <= 0 || upto > bindings.len() {
        -1
    } else if bindings[upto - 1].0 == prefix {
        upto - 1
    } else {
        bound_at(bindings, prefix, upto - 1)
    }
}

/// The index, among the first `upto` bindings, of the first binding of
/// `namespace`, or -1.
pub open spec fn first_binding_of(bindings: Seq<Binding>, namespace: Seq<char>, upto: int) -> int
    decreases upto,
{
    if upto <= 0 || upto > bindings.len() {
        -1
    } else {
        let before = first_binding_of(bindings, namespace, upto - 1);
        if before < 0 && bindings[upto - 1].1 == namespace {
            upto - 1
        } else {
            before
        }
    }
}

/// The index, among the first `upto` bindings, of the one whose namespace is
/// the longest that `iri` begins with, and the first of those where several
/// are as long; -1 where `iri` begins with none.
pub open spec fn longest_match(bindings: Seq<Binding>, iri: Seq<char>, upto: int) -> int
    decreases upto,
{
    if upto <= 0 || upto > bindings.len() {
        -1
    } else {
        let before = longest_match(bindings, iri, upto - 1);
        if starts_with(iri, bindings[upto - 1].1) && (before < 0 || bindings[upto - 1].1.len()
            > bindings[before].1.len()) {
            upto - 1
        } else {
            before
        }
    }
}

/// The prefixes of a table are pairwise different.
pub open spec fn distinct_prefixes(bindings: Seq<Binding>) -> bool {
    forall|i: int, j: int|
        0 <= i < j < bindings.len() ==> (#[trigger] bindings[i]).0 != (#[trigger] bindings[j]).0
}

/// The table with `prefix` bound to `namespace`: in place, where the prefix
/// is bound already, and else at the end.
pub open spec fn bind(bindings: Seq<Binding>, prefix: Option<Seq<char>>, namespace: Seq<char>)
    -> Seq<Binding> {
    let k = bound_at(bindings, prefix, bindings.len() as int);
    if k >= 0 {
        bindings.update(k, (prefix, namespace))
    } else {
        bindings.push((prefix, namespace))
    }
}

/// What `longest_match` finds is a namespace that the IRI begins with, no
/// other such namespace is longer, and none before it is as long. It finds
/// nothing only where the IRI begins with no namespace of the table.
pub proof fn lemma_longest_match(bindings: Seq<Binding>, iri: Seq<char>, upto: int)
    requires
        0 <= upto <= bindings.len(),
    ensures
        ({
            let k = longest_match(bindings, iri, upto);
            &&& -1 <= k < upto
            &&& k >= 0 ==> starts_with(iri, bindings[k].1)
            &&& forall|j: int|
                0 <= j < upto && starts_with(iri, (#[trigger] bindings[j]).1) ==> k >= 0
                    && bindings[j].1.len() <= bindings[k].1.len() && (bindings[j].1.len()
                    == bindings[k].1.len() ==> k <= j)
        }),
    decreases upto,
{
    if upto > 0 {
        lemma_longest_match(bindings, iri, upto - 1);
    }
}

/// The table of prefixes.
#[derive(Debug)]
pub struct PrefixMappings {
    bindings: Vec<(Prefix, Iri)>,
}

impl View for PrefixMappings {
    type V = Seq<Binding>;

    closed spec fn view(&self) -> Seq<Binding> {
        Seq::new(self.bindings@.len(), |i: int| (self.bindings@[i].0@, self.bindings@[i].1@))
    }
}

impl PrefixMappings {
    #[verifier::type_invariant]
    spec fn inv(self) -> bool {
        distinct_prefixes(self@)
    }

    /// A table without bindings.
    pub fn new() -> (r: PrefixMappings)
        ensures
            r@ == Seq::<Binding>::empty(),
    {
        let r = PrefixMappings { bindings: Vec::new() };
        assert(r@ =~= Seq::<Binding>::empty());
        r
    }

    /// Whether the table has no binding.
    pub fn is_empty(&self) -> (r: bool)
        ensures
            r == (self@.len() == 0),
    {
        self.bindings.len() == 0
    }

    /// The number of bindings. No two of them have the same prefix.
    pub fn len(&self) -> (r: usize)
        ensures
            r == self@.len(),
            distinct_prefixes(self@),
    {
        proof {
            use_type_invariant(self);
        }
        self.bindings.len()
    }

    /// The binding at `index`: a prefix and its namespace.
    pub fn get(&self, index: usize) -> (r: (&Prefix, &Iri))
        requires
            index < self@.len(),
        ensures
            r.0@ == self@[index as int].0,
            r.1@ == self@[index as int].1,
    {
        (&self.bindings[index].0, &self.bindings[index].1)
    }

    /// Where `prefix` is bound.
    fn find(&self, prefix: &Prefix) -> (r: Option<usize>)
        ensures
            match r {
                Some(k) => k == bound_at(self@, prefix@, self@.len() as int) && k
                    < self.bindings.len(),
                None => bound_at(self@, prefix@, self@.len() as int) == -1,
            },
            self@.len() == self.bindings.len(),
    {
        let mut k: usize = self.bindings.len();
        while k > 0
            invariant
                k <= self.bindings.len(),
                self@.len() == self.bindings.len(),
                bound_at(self@, prefix@, self@.len() as int) == bound_at(self@, prefix@, k as int),
            decreases k,
        {
            if self.bindings[k - 1].0 == *prefix {
                return Some(k - 1);
            }
            k = k - 1;
        }
        None
    }

    /// The namespace that `prefix` stands for.
    pub fn get_namespace(&self, prefix: &Prefix) -> (r: Option<&Iri>)
        ensures
            match r {
                Some(namespace) => {
                    let k = bound_at(self@, prefix@, self@.len() as int);
                    k >= 0 && namespace@ == self@[k].1
                },
                None => bound_at(self@, prefix@, self@.len() as int) == -1,
            },
    {
        match self.find(prefix) {
            Some(k) => Some(&self.bindings[k].1),
            None => None,
        }
    }

    /// The namespace that the default prefix stands for.
    pub fn get_default_namespace(&self) -> (r: Option<&Iri>)
        ensures
            match r {
                Some(namespace) => {
                    let k = bound_at(self@, None, self@.len() as int);
                    k >= 0 && namespace@ == self@[k].1
                },
                None => bound_at(self@, None, self@.len() as int) == -1,
            },
    {
        self.get_namespace(&Prefix::Default)
    }

    /// The first prefix that stands for `namespace`.
    pub fn get_prefix(&self, namespace: &Iri) -> (r: Option<&Prefix>)
        ensures
            match r {
                Some(prefix) => {
                    let k = first_binding_of(self@, namespace@, self@.len() as int);
                    k >= 0 && prefix@ == self@[k].0
                },
                None => first_binding_of(self@, namespace@, self@.len() as int) == -1,
            },
    {
        let mut found: Option<usize> = None;
        let mut i: usize = 0;
        while i < self.bindings.len()
            invariant
                i <= self.bindings.len(),
                self@.len() == self.bindings.len(),
                match found {
                    Some(k) => k == first_binding_of(self@, namespace@, i as int) && k < i,
                    None => first_binding_of(self@, namespace@, i as int) == -1,
                },
            decreases self.bindings.len() - i,
        {
            if found.is_none() && self.bindings[i].1 == *namespace {
                found = Some(i);
            }
            i = i + 1;
        }
        match found {
            Some(k) => Some(&self.bindings[k].0),
            None => None,
        }
    }

    /// The prefixes, in the order in which they were bound.
    pub fn prefixes(&self) -> (r: Vec<Prefix>)
        ensures
            r@.len() == self@.len(),
            forall|i: int| 0 <= i < r@.len() ==> (#[trigger] r@[i])@ == self@[i].0,
    {
        let mut out: Vec<Prefix> = Vec::new();
        let mut i: usize = 0;
        while i < self.bindings.len()
            invariant
                i <= self.bindings.len(),
                self@.len() == self.bindings.len(),
                out@.len() == i,
                forall|j: int| 0 <= j < i ==> (#[trigger] out@[j])@ == self@[j].0,
            decreases self.bindings.len() - i,
        {
            out.push(self.bindings[i].0.clone());
            i = i + 1;
        }
        out
    }

    /// The namespaces, in the order in which their prefixes were bound.
    pub fn namespaces_in_use_order(&self) -> (r: Vec<Iri>)
        ensures
            r@.len() == self@.len(),
            forall|i: int| 0 <= i < r@.len() ==> (#[trigger] r@[i])@ == self@[i].1,
    {
        let mut out: Vec<Iri> = Vec::new();
        let mut i: usize = 0;
        while i < self.bindings.len()
            invariant
                i <= self.bindings.len(),
                self@.len() == self.bindings.len(),
                out@.len() == i,
                forall|j: int| 0 <= j < i ==> (#[trigger] out@[j])@ == self@[j].1,
            decreases self.bindings.len() - i,
        {
            out.push(self.bindings[i].1.clone());
            i = i + 1;
        }
        out
    }

    /// Binds `prefix` to `namespace`, whatever it was bound to.
    fn set(&mut self, prefix: Prefix, namespace: Iri)
        ensures
            final(self)@ == bind(old(self)@, prefix@, namespace@),
    {
        let ghost before = self@;
        proof {
            use_type_invariant(&*self);
            lemma_bind_distinct(before, prefix@, namespace@);
        }
        let found = self.find(&prefix);
        let mut bindings: Vec<(Prefix, Iri)> = Vec::new();
        assert(Seq::new(bindings@.len(), |i: int| (bindings@[i].0@, bindings@[i].1@)) =~= Seq::<
            Binding,
        >::empty());
        std::mem::swap(&mut self.bindings, &mut bindings);
        match found {
            Some(k) => {
                bindings.set(k, (prefix, namespace));
            },
            None => {
                bindings.push((prefix, namespace));
            },
        }
        assert(Seq::new(bindings@.len(), |i: int| (bindings@[i].0@, bindings@[i].1@)) =~= bind(
            before,
            prefix@,
            namespace@,
        ));
        std::mem::swap(&mut self.bindings, &mut bindings);
    }

    /// Binds the default prefix to `namespace`.
    pub fn set_default(&mut self, namespace: Iri)
        ensures
            final(self)@ == bind(old(self)@, None, namespace@),
    {
        self.set(Prefix::Default, namespace)
    }

    /// Binds `prefix` to `namespace`. Where the prefix is bound to another
    /// namespace already, the table stays as it is and the conflict is
    /// reported.
    pub fn insert(&mut self, prefix: &str, namespace: Iri) -> (r: Result<(), Error>)
        ensures
            ({
                let k = bound_at(old(self)@, Some(prefix@), old(self)@.len() as int);
                if k >= 0 && old(self)@[k].1 != namespace@ {
                    &&& r matches Err(e)
                    &&& e@ == ErrorView::PrefixConflict(prefix@)
                    &&& final(self)@ == old(self)@
                } else {
                    &&& r is Ok
                    &&& final(self)@ == bind(old(self)@, Some(prefix@), namespace@)
                }
            }),
    {
        let key = Prefix::Named(prefix.to_owned());
        let conflict = match self.get_namespace(&key) {
            Some(bound) => !(*bound == namespace),
            None => false,
        };
        if conflict {
            Err(Error::PrefixConflict(prefix.to_owned()))
        } else {
            self.set(key, namespace);
            Ok(())
        }
    }

    /// The qualified name of `iri`: the prefix whose namespace is the longest
    /// that the IRI begins with, and what follows that namespace. `None`
    /// where the IRI begins with no namespace of the table.
    pub fn compress(&self, iri: &Iri) -> (r: Option<QName>)
        ensures
            ({
                let k = longest_match(self@, iri@, self@.len() as int);
                match r {
                    Some(name) => k >= 0 && name@ == (QNameView {
                        prefix: self@[k].0,
                        name: iri@.skip(self@[k].1.len() as int),
                    }),
                    None => k == -1,
                }
            }),
    {
        let text = chars_of(iri.as_str());
        let mut best: Option<usize> = None;
        let mut best_len: usize = 0;
        let mut i: usize = 0;
        while i < self.bindings.len()
            invariant
                i <= self.bindings.len(),
                self@.len() == self.bindings.len(),
                text@ == iri@,
                match best {
                    Some(k) => k == longest_match(self@, iri@, i as int) && k < i && best_len
                        == self@[k as int].1.len() && starts_with(iri@, self@[k as int].1),
                    None => longest_match(self@, iri@, i as int) == -1,
                },
            decreases self.bindings.len() - i,
        {
            let namespace = chars_of(self.bindings[i].1.as_str());
            if has_prefix(&text, &namespace) && (best.is_none() || namespace.len() > best_len) {
                best = Some(i);
                best_len = namespace.len();
            }
            i = i + 1;
        }
        match best {
            Some(k) => {
                let local = string_of_range(&text, best_len, text.len());
                assert(text@.subrange(best_len as int, text.len() as int) == iri@.skip(
                    best_len as int,
                ));
                match &self.bindings[k].0 {
                    Prefix::Default => Some(QName::new(local.as_str())),
                    Prefix::Named(prefix) => Some(
                        QName::with_prefix(prefix.as_str(), local.as_str()),
                    ),
                }
            },
            None => None,
        }
    }
}

/// Binding a prefix keeps the prefixes of a table pairwise different.
pub proof fn lemma_bind_distinct(
    bindings: Seq<Binding>,
    prefix: Option<Seq<char>>,
    namespace: Seq<char>,
)
    requires
        distinct_prefixes(bindings),
    ensures
        distinct_prefixes(bind(bindings, prefix, namespace)),
{
    lemma_bound_at(bindings, prefix, bindings.len() as int);
    let k = bound_at(bindings, prefix, bindings.len() as int);
    let after = bind(bindings, prefix, namespace);
    assert forall|i: int, j: int| 0 <= i < j < after.len() implies (#[trigger] after[i]).0 != (
    #[trigger] after[j]).0 by {
        if k >= 0 {
            assert(after[i].0 == bindings[i].0);
            assert(after[j].0 == bindings[j].0);
        } else {
            if j < bindings.len() {
                assert(after[i].0 == bindings[i].0);
                assert(after[j].0 == bindings[j].0);
            } else {
                assert(after[i].0 == bindings[i].0);
            }
        }
    }
}

/// What `bound_at` finds is a binding of the prefix, and it finds nothing
/// only where the prefix is not bound.
proof fn lemma_bound_at(bindings: Seq<Binding>, prefix: Option<Seq<char>>, upto: int)
    requires
        0 <= upto <= bindings.len(),
    ensures
        ({
            let k = bound_at(bindings, prefix, upto);
            &&& -1 <= k < upto
            &&& k >= 0 ==> bindings[k].0 == prefix
            &&& k < 0 ==> forall|j: int| 0 <= j < upto ==> (#[trigger] bindings[j]).0 != prefix
        }),
    decreases upto,
{
    if upto > 0 {
        lemma_bound_at(bindings, prefix, upto - 1);
    }
}

impl Clone for PrefixMappings {
    fn clone(&self) -> (r: Self)
        ensures
            r@ == self@,
    {
        proof {
            use_type_invariant(self);
        }
        let mut bindings: Vec<(Prefix, Iri)> = Vec::new();
        let mut i: usize = 0;
        while i < self.bindings.len()
            invariant
                i <= self.bindings.len(),
                bindings@.len() == i,
                forall|j: int|
                    0 <= j < i ==> (#[trigger] bindings@[j]).0@ == self.bindings@[j].0@
                        && bindings@[j].1@ == self.bindings@[j].1@,
            decreases self.bindings.len() - i,
        {
            bindings.push((self.bindings[i].0.clone(), self.bindings[i].1.clone()));
            i = i + 1;
        }
        let ghost view = Seq::new(bindings@.len(), |i: int| (bindings@[i].0@, bindings@[i].1@));
        assert(view =~= self@);
        PrefixMappings { bindings }
    }
}

} // verus!
