//! A builder for the statements about one subject. Values are added under
//! predicates, never changed or removed; a value may itself be a resource, or
//! a container of literals or of resources. `Resource::to_statements` turns
//! the tree into a flat list of statements.

use crate::iri::Iri;
use crate::literal::{Literal, LiteralView};
use crate::names::rdf;
use crate::statement::{
    statement_views, NodeView, ObjectNode, Statement, StatementView, SubjectNode,
};
use crate::text::{decimal, digit_char, push_range};
use std::rc::Rc;
use vstd::prelude::*;
use vstd::std_specs::convert::FromSpecImpl;
use vstd::string::StrSliceExecFns;

verus! {

/// The kind of a container.
#[derive(Debug)]
pub enum ContainerKind {
    /// A choice: `rdf:Alt`.
    Alt,
    /// An unordered group: `rdf:Bag`.
    Bag,
    /// An ordered group: `rdf:Seq`.
    Sequence,
    /// The class that the IRI names.
    Other(Iri),
}

/// The mathematical content of a [`ContainerKind`].
pub enum ContainerKindView {
    Alt,
    Bag,
    Sequence,
    Other(Seq<char>),
}

impl ContainerKindView {
    /// The IRI of the class of the container.
    pub open spec fn class(self) -> Seq<char> {
        match self {
            ContainerKindView::Alt => rdf::name("Alt"@),
            ContainerKindView::Bag => rdf::name("Bag"@),
            ContainerKindView::Sequence => rdf::name("Seq"@),
            ContainerKindView::Other(iri) => iri,
        }
    }
}

impl View for ContainerKind {
    type V = ContainerKindView;

    open spec fn view(&self) -> ContainerKindView {
        match self {
            ContainerKind::Alt => ContainerKindView::Alt,
            ContainerKind::Bag => ContainerKindView::Bag,
            ContainerKind::Sequence => ContainerKindView::Sequence,
            ContainerKind::Other(iri) => ContainerKindView::Other(iri@),
        }
    }
}

impl ContainerKind {
    /// The IRI of the class of the container.
    pub fn class(&self) -> (r: Iri)
        ensures
            r@ == self@.class(),
    {
        match self {
            ContainerKind::Alt => rdf::alt(),
            ContainerKind::Bag => rdf::bag(),
            ContainerKind::Sequence => rdf::seq(),
            ContainerKind::Other(iri) => iri.clone(),
        }
    }
}

impl Clone for ContainerKind {
    fn clone(&self) -> (r: Self)
        ensures
            r@ == self@,
    {
        match self {
            ContainerKind::Alt => ContainerKind::Alt,
            ContainerKind::Bag => ContainerKind::Bag,
            ContainerKind::Sequence => ContainerKind::Sequence,
            ContainerKind::Other(iri) => ContainerKind::Other(iri.clone()),
        }
    }
}

/// A value under a predicate.
#[derive(Debug)]
pub enum ResourceObject {
    /// Another resource; its subject is the value.
    Resource(Resource),
    /// A container of resources.
    Resources(ContainerKind, Vec<Resource>),
    /// A literal.
    Literal(Literal),
    /// A container of literals.
    Literals(ContainerKind, Vec<Literal>),
}

/// A predicate with the values that were added under it, in the order in
/// which they were added.
#[derive(Debug)]
pub struct Predicate {
    name: Iri,
    objects: Vec<ResourceObject>,
}

/// A subject with its predicates, in the order in which each was first used.
/// A resource without a subject stands for a blank node that gets its label
/// when the statements are made.
#[derive(Debug)]
pub struct Resource {
    subject: Option<SubjectNode>,
    predicates: Vec<Predicate>,
}

/// The mathematical content of a [`ResourceObject`].
pub enum ObjectView {
    Resource(ResourceView),
    Resources(ContainerKindView, Seq<ResourceView>),
    Literal(LiteralView),
    Literals(ContainerKindView, Seq<LiteralView>),
}

/// The mathematical content of a [`Predicate`].
pub struct PredicateView {
    pub name: Seq<char>,
    pub objects: Seq<ObjectView>,
}

/// The mathematical content of a [`Resource`].
pub struct ResourceView {
    pub subject: Option<NodeView>,
    pub predicates: Seq<PredicateView>,
}

/// The content of a list of literals.
pub open spec fn literal_views(literals: Seq<Literal>) -> Seq<LiteralView> {
    Seq::new(literals.len(), |i: int| literals[i]@)
}

/// The content of a list of resources.
pub open spec fn resource_views(resources: Seq<Resource>) -> Seq<ResourceView>
    decreases resources,
{
    Seq::new(
        resources.len(),
        |i: int|
            if 0 <= i < resources.len() {
                resources[i].content()
            } else {
                arbitrary()
            },
    )
}

/// The content of a list of values.
pub open spec fn object_views(objects: Seq<ResourceObject>) -> Seq<ObjectView>
    decreases objects,
{
    Seq::new(
        objects.len(),
        |i: int|
            if 0 <= i < objects.len() {
                objects[i].content()
            } else {
                arbitrary()
            },
    )
}

/// The content of a list of predicates.
pub closed spec fn predicate_views(predicates: Seq<Predicate>) -> Seq<PredicateView>
    decreases predicates,
{
    Seq::new(
        predicates.len(),
        |i: int|
            if 0 <= i < predicates.len() {
                predicates[i].content()
            } else {
                arbitrary()
            },
    )
}

impl ResourceObject {
    /// The content of the value.
    pub open spec fn content(self) -> ObjectView
        decreases self,
    {
        match self {
            ResourceObject::Resource(resource) => ObjectView::Resource(resource.content()),
            ResourceObject::Resources(kind, resources) => ObjectView::Resources(
                kind@,
                resource_views(resources@),
            ),
            ResourceObject::Literal(literal) => ObjectView::Literal(literal@),
            ResourceObject::Literals(kind, literals) => ObjectView::Literals(
                kind@,
                literal_views(literals@),
            ),
        }
    }

    /// Whether the value is a container.
    pub fn is_container(&self) -> (r: bool)
        ensures
            r == (self@ is Resources || self@ is Literals),
    {
        match self {
            ResourceObject::Resources(_, _) => true,
            ResourceObject::Literals(_, _) => true,
            _ => false,
        }
    }
}

impl Predicate {
    /// The content of the predicate.
    pub closed spec fn content(self) -> PredicateView
        decreases self,
    {
        PredicateView { name: self.name@, objects: object_views(self.objects@) }
    }
}

impl Resource {
    /// The content of the resource.
    pub closed spec fn content(self) -> ResourceView
        decreases self,
    {
        ResourceView {
            subject: match self.subject {
                Some(subject) => Some(subject@),
                None => None,
            },
            predicates: predicate_views(self.predicates@),
        }
    }
}

impl View for ResourceObject {
    type V = ObjectView;

    open spec fn view(&self) -> ObjectView {
        self.content()
    }
}

impl View for Predicate {
    type V = PredicateView;

    open spec fn view(&self) -> PredicateView {
        self.content()
    }
}

impl View for Resource {
    type V = ResourceView;

    open spec fn view(&self) -> ResourceView {
        self.content()
    }
}

/// The index of the first predicate at or after `from` with the name `name`,
/// or -1.
pub open spec fn position(predicates: Seq<PredicateView>, name: Seq<char>, from: int) -> int
    decreases predicates.len() - from,
{
    if from < 0 || from >= predicates.len() {
        -1
    } else if predicates[from].name == name {
        from
    } else {
        position(predicates, name, from + 1)
    }
}

/// Whether every predicate has a value and no two predicates have the same
/// name.
pub open spec fn settled(predicates: Seq<PredicateView>) -> bool {
    &&& forall|i: int| 0 <= i < predicates.len() ==> (#[trigger] predicates[i]).objects.len() > 0
    &&& forall|i: int, j: int|
        0 <= i < j < predicates.len() ==> (#[trigger] predicates[i]).name != (
        #[trigger] predicates[j]).name
}

/// What `position` finds has the name, and it finds nothing only where no
/// predicate has the name.
pub proof fn lemma_position(predicates: Seq<PredicateView>, name: Seq<char>, from: int)
    requires
        0 <= from <= predicates.len(),
    ensures
        ({
            let k = position(predicates, name, from);
            &&& k == -1 || from <= k < predicates.len()
            &&& k >= 0 ==> predicates[k].name == name
            &&& k == -1 ==> forall|i: int|
                from <= i < predicates.len() ==> (#[trigger] predicates[i]).name != name
        }),
    decreases predicates.len() - from,
{
    if from < predicates.len() && predicates[from].name != name {
        lemma_position(predicates, name, from + 1);
    }
}

/// A resource stays settled when a value is added.
pub proof fn lemma_with_settled(resource: ResourceView, name: Seq<char>, object: ObjectView)
    requires
        settled(resource.predicates),
    ensures
        settled(resource.with(name, object).predicates),
{
    lemma_position(resource.predicates, name, 0);
    let before = resource.predicates;
    let after = resource.with(name, object).predicates;
    let k = position(before, name, 0);
    assert forall|i: int| 0 <= i < after.len() implies (#[trigger] after[i]).objects.len() > 0 by {
        if i < before.len() && i != k {
            assert(after[i] == before[i]);
        }
    }
    assert forall|i: int, j: int| 0 <= i < j < after.len() implies (#[trigger] after[i]).name != (
    #[trigger] after[j]).name by {
        if k >= 0 {
            assert(after[i].name == before[i].name);
            assert(after[j].name == before[j].name);
        } else if j < before.len() {
            assert(after[i] == before[i]);
            assert(after[j] == before[j]);
        } else {
            assert(after[i] == before[i]);
        }
    }
}

impl PredicateView {
    /// The predicate with one more value at the end.
    pub open spec fn with(self, object: ObjectView) -> PredicateView {
        PredicateView { name: self.name, objects: self.objects.push(object) }
    }
}

impl ResourceView {
    /// The resource with one more value under the predicate `name`: at the
    /// end of the values of that predicate, where the resource has it
    /// already, and else under a new predicate at the end.
    pub open spec fn with(self, name: Seq<char>, object: ObjectView) -> ResourceView {
        let k = position(self.predicates, name, 0);
        ResourceView {
            subject: self.subject,
            predicates: if k >= 0 {
                self.predicates.update(k, self.predicates[k].with(object))
            } else {
                self.predicates.push(PredicateView { name, objects: seq![object] })
            },
        }
    }

    /// The resource with the values `objects[from..]` added under `name`, one
    /// after the other.
    pub open spec fn with_all(self, name: Seq<char>, objects: Seq<ObjectView>, from: int)
        -> ResourceView
        decreases objects.len() - from,
    {
        if from < 0 || from >= objects.len() {
            self
        } else {
            self.with(name, objects[from]).with_all(name, objects, from + 1)
        }
    }

    /// The resource with the subject `subject` and no predicate.
    pub open spec fn empty(subject: Option<NodeView>) -> ResourceView {
        ResourceView { subject, predicates: Seq::empty() }
    }

    /// Whether the resource has a value under the predicate `name`.
    pub open spec fn has(self, name: Seq<char>) -> bool {
        position(self.predicates, name, 0) >= 0
    }
}

/// A copy of a list of literals.
fn clone_literals(literals: &[Literal]) -> (r: Vec<Literal>)
    ensures
        literal_views(r@) == literal_views(literals@),
{
    let mut out: Vec<Literal> = Vec::new();
    let mut i: usize = 0;
    while i < literals.len()
        invariant
            i <= literals.len(),
            out.len() == i,
            forall|j: int| 0 <= j < i ==> out@[j]@ == literals@[j]@,
        decreases literals.len() - i,
    {
        out.push(literals[i].clone());
        i = i + 1;
    }
    assert(literal_views(out@) =~= literal_views(literals@));
    out
}

/// A copy of a list of resources.
fn clone_resources(resources: &[Resource]) -> (r: Vec<Resource>)
    ensures
        resource_views(r@) == resource_views(resources@),
    decreases resources@,
{
    let mut out: Vec<Resource> = Vec::new();
    let mut i: usize = 0;
    while i < resources.len()
        invariant
            i <= resources.len(),
            out.len() == i,
            forall|j: int| 0 <= j < i ==> out@[j]@ == resources@[j]@,
        decreases resources.len() - i,
    {
        out.push(resources[i].clone());
        i = i + 1;
    }
    assert(resource_views(out@) =~= resource_views(resources@));
    out
}

/// A copy of a list of values.
fn clone_objects(objects: &Vec<ResourceObject>) -> (r: Vec<ResourceObject>)
    ensures
        object_views(r@) == object_views(objects@),
    decreases objects@,
{
    let mut out: Vec<ResourceObject> = Vec::new();
    let mut i: usize = 0;
    while i < objects.len()
        invariant
            i <= objects.len(),
            out.len() == i,
            forall|j: int| 0 <= j < i ==> out@[j]@ == objects@[j]@,
        decreases objects.len() - i,
    {
        out.push(objects[i].clone());
        i = i + 1;
    }
    assert(object_views(out@) =~= object_views(objects@));
    out
}

impl Clone for ResourceObject {
    fn clone(&self) -> (r: Self)
        ensures
            r@ == self@,
        decreases self,
    {
        match self {
            ResourceObject::Resource(resource) => ResourceObject::Resource(resource.clone()),
            ResourceObject::Resources(kind, resources) => ResourceObject::Resources(
                kind.clone(),
                clone_resources(resources.as_slice()),
            ),
            ResourceObject::Literal(literal) => ResourceObject::Literal(literal.clone()),
            ResourceObject::Literals(kind, literals) => ResourceObject::Literals(
                kind.clone(),
                clone_literals(literals.as_slice()),
            ),
        }
    }
}

impl Clone for Predicate {
    fn clone(&self) -> (r: Self)
        ensures
            r@ == self@,
        decreases self,
    {
        Predicate { name: self.name.clone(), objects: clone_objects(&self.objects) }
    }
}

impl Clone for Resource {
    fn clone(&self) -> (r: Self)
        ensures
            r@ == self@,
        decreases self,
    {
        proof {
            use_type_invariant(self);
        }
        let mut predicates: Vec<Predicate> = Vec::new();
        let mut i: usize = 0;
        while i < self.predicates.len()
            invariant
                i <= self.predicates.len(),
                predicates.len() == i,
                forall|j: int| 0 <= j < i ==> predicates@[j]@ == self.predicates@[j]@,
            decreases self.predicates.len() - i,
        {
            predicates.push(self.predicates[i].clone());
            i = i + 1;
        }
        assert(predicate_views(predicates@) =~= predicate_views(self.predicates@));
        Resource {
            subject: match &self.subject {
                Some(subject) => Some(subject.clone()),
                None => None,
            },
            predicates,
        }
    }
}

impl Predicate {
    /// A predicate without values.
    pub fn new(name: Iri) -> (r: Predicate)
        ensures
            r@ == (PredicateView { name: name@, objects: Seq::empty() }),
    {
        let r = Predicate { name, objects: Vec::new() };
        assert(r@.objects =~= Seq::empty());
        r
    }

    /// Adds a value at the end.
    fn push(&mut self, object: ResourceObject) -> (r: &mut Self)
        ensures
            r@ == old(self)@.with(object@),
            *final(self) == *final(r),
    {
        self.objects.push(object);
        assert(self@.objects =~= old(self)@.objects.push(object@));
        self
    }

    /// Adds a literal.
    pub fn property(&mut self, value: Literal) -> (r: &mut Self)
        ensures
            r@ == old(self)@.with(ObjectView::Literal(value@)),
            *final(self) == *final(r),
    {
        self.push(ResourceObject::Literal(value))
    }

    /// Adds a literal.
    pub fn value_of(&mut self, value: Literal) -> (r: &mut Self)
        ensures
            r@ == old(self)@.with(ObjectView::Literal(value@)),
            *final(self) == *final(r),
    {
        self.push(ResourceObject::Literal(value))
    }

    /// Adds a literal.
    pub fn literal(&mut self, value: Literal) -> (r: &mut Self)
        ensures
            r@ == old(self)@.with(ObjectView::Literal(value@)),
            *final(self) == *final(r),
    {
        self.push(ResourceObject::Literal(value))
    }

    /// Adds a container of literals of which one is to be chosen.
    pub fn property_alternatives(&mut self, values: &[Literal]) -> (r: &mut Self)
        ensures
            r@ == old(self)@.with(
                ObjectView::Literals(ContainerKindView::Alt, literal_views(values@)),
            ),
            *final(self) == *final(r),
    {
        self.push(ResourceObject::Literals(ContainerKind::Alt, clone_literals(values)))
    }

    /// Adds an unordered container of literals.
    pub fn property_bag(&mut self, values: &[Literal]) -> (r: &mut Self)
        ensures
            r@ == old(self)@.with(
                ObjectView::Literals(ContainerKindView::Bag, literal_views(values@)),
            ),
            *final(self) == *final(r),
    {
        self.push(ResourceObject::Literals(ContainerKind::Bag, clone_literals(values)))
    }

    /// Adds an ordered container of literals.
    pub fn property_sequence(&mut self, values: &[Literal]) -> (r: &mut Self)
        ensures
            r@ == old(self)@.with(
                ObjectView::Literals(ContainerKindView::Sequence, literal_views(values@)),
            ),
            *final(self) == *final(r),
    {
        self.push(ResourceObject::Literals(ContainerKind::Sequence, clone_literals(values)))
    }

    /// Adds a container of literals of the class `kind`.
    pub fn property_container(&mut self, values: &[Literal], kind: Iri) -> (r: &mut Self)
        ensures
            r@ == old(self)@.with(
                ObjectView::Literals(ContainerKindView::Other(kind@), literal_views(values@)),
            ),
            *final(self) == *final(r),
    {
        self.push(ResourceObject::Literals(ContainerKind::Other(kind), clone_literals(values)))
    }

    /// Adds the blank node with the label `name`.
    pub fn resource_blank_named(&mut self, name: &str) -> (r: &mut Self)
        ensures
            r@ == old(self)@.with(
                ObjectView::Resource(ResourceView::empty(Some(NodeView::Blank(name@)))),
            ),
            *final(self) == *final(r),
    {
        self.push(ResourceObject::Resource(Resource::blank_named(name)))
    }

    /// Adds the node that `name` names.
    pub fn resource_named(&mut self, name: Iri) -> (r: &mut Self)
        ensures
            r@ == old(self)@.with(
                ObjectView::Resource(ResourceView::empty(Some(NodeView::Named(name@)))),
            ),
            *final(self) == *final(r),
    {
        self.push(ResourceObject::Resource(Resource::named(name)))
    }

    /// Adds a resource.
    pub fn resource(&mut self, resource: Resource) -> (r: &mut Self)
        ensures
            r@ == old(self)@.with(ObjectView::Resource(resource@)),
            *final(self) == *final(r),
    {
        self.push(ResourceObject::Resource(resource))
    }

    /// Adds a container of resources of which one is to be chosen.
    pub fn resource_alternatives(&mut self, values: &[Resource]) -> (r: &mut Self)
        ensures
            r@ == old(self)@.with(
                ObjectView::Resources(ContainerKindView::Alt, resource_views(values@)),
            ),
            *final(self) == *final(r),
    {
        self.push(ResourceObject::Resources(ContainerKind::Alt, clone_resources(values)))
    }

    /// Adds an unordered container of resources.
    pub fn resource_bag(&mut self, values: &[Resource]) -> (r: &mut Self)
        ensures
            r@ == old(self)@.with(
                ObjectView::Resources(ContainerKindView::Bag, resource_views(values@)),
            ),
            *final(self) == *final(r),
    {
        self.push(ResourceObject::Resources(ContainerKind::Bag, clone_resources(values)))
    }

    /// Adds an ordered container of resources.
    pub fn resource_sequence(&mut self, values: &[Resource]) -> (r: &mut Self)
        ensures
            r@ == old(self)@.with(
                ObjectView::Resources(ContainerKindView::Sequence, resource_views(values@)),
            ),
            *final(self) == *final(r),
    {
        self.push(ResourceObject::Resources(ContainerKind::Sequence, clone_resources(values)))
    }

    /// Adds a container of resources of the class `kind`.
    pub fn resource_container(&mut self, values: &[Resource], kind: Iri) -> (r: &mut Self)
        ensures
            r@ == old(self)@.with(
                ObjectView::Resources(ContainerKindView::Other(kind@), resource_views(values@)),
            ),
            *final(self) == *final(r),
    {
        self.push(ResourceObject::Resources(ContainerKind::Other(kind), clone_resources(values)))
    }
}

impl Resource {
    #[verifier::type_invariant]
    spec fn inv(self) -> bool {
        settled(self.content().predicates)
    }

    /// A resource about `subject`, without predicates.
    pub fn new(subject: SubjectNode) -> (r: Resource)
        ensures
            r@ == ResourceView::empty(Some(subject@)),
    {
        let r = Resource { subject: Some(subject), predicates: Vec::new() };
        assert(r@.predicates =~= Seq::empty());
        r
    }

    /// A resource about a blank node that has no label yet.
    pub fn blank() -> (r: Resource)
        ensures
            r@ == ResourceView::empty(None),
    {
        let r = Resource { subject: None, predicates: Vec::new() };
        assert(r@.predicates =~= Seq::empty());
        r
    }

    /// A resource about the blank node with the label `name`.
    pub fn blank_named(name: &str) -> (r: Resource)
        ensures
            r@ == ResourceView::empty(Some(NodeView::Blank(name@))),
    {
        Resource::new(SubjectNode::blank_named(name))
    }

    /// A resource about the node that `name` names.
    pub fn named(name: Iri) -> (r: Resource)
        ensures
            r@ == ResourceView::empty(Some(NodeView::Named(name@))),
    {
        Resource::new(SubjectNode::named(name))
    }

    /// Whether the subject is named by an IRI.
    pub fn is_a_resource(&self) -> (r: bool)
        ensures
            r == (self@.subject matches Some(subject) && subject is Named),
    {
        match &self.subject {
            Some(subject) => subject.is_iri(),
            None => false,
        }
    }

    /// Whether the resource has a value under `rdf:type`.
    pub fn is_an_individual(&self) -> (r: bool)
        ensures
            r == self@.has(rdf::name("type"@)),
    {
        let a_type = rdf::a_type();
        let n = self.predicates.len();
        let mut k: usize = 0;
        while k < n && !(self.predicates[k].name == a_type)
            invariant
                k <= n == self.predicates.len(),
                a_type@ == rdf::name("type"@),
                position(self@.predicates, a_type@, 0) == position(
                    self@.predicates,
                    a_type@,
                    k as int,
                ),
            decreases n - k,
        {
            k = k + 1;
        }
        k < n
    }

    /// Adds a value under a predicate.
    fn insert(&mut self, predicate: Iri, object: ResourceObject) -> (r: &mut Self)
        ensures
            r@ == old(self)@.with(predicate@, object@),
            *final(self) == *final(r),
    {
        let ghost before = self@;
        proof {
            use_type_invariant(&*self);
            lemma_with_settled(before, predicate@, object@);
        }
        let n = self.predicates.len();
        let mut k: usize = 0;
        while k < n && !(self.predicates[k].name == predicate)
            invariant
                k <= n == self.predicates.len(),
                *self == *old(self),
                position(self@.predicates, predicate@, 0) == position(
                    self@.predicates,
                    predicate@,
                    k as int,
                ),
            decreases n - k,
        {
            k = k + 1;
        }
        let mut predicates: Vec<Predicate> = Vec::new();
        assert(predicate_views(predicates@) =~= Seq::empty());
        std::mem::swap(&mut self.predicates, &mut predicates);
        if k < n {
            predicates[k].objects.push(object);
            assert(predicate_views(predicates@)[k as int].objects =~= before.predicates[k as int].objects.push(
                object@,
            ));
            assert(predicate_views(predicates@) =~= before.predicates.update(
                k as int,
                before.predicates[k as int].with(object@),
            ));
        } else {
            let mut objects: Vec<ResourceObject> = Vec::new();
            objects.push(object);
            let entry = Predicate { name: predicate, objects };
            assert(entry@.objects =~= seq![object@]);
            predicates.push(entry);
            assert(predicate_views(predicates@) =~= before.predicates.push(entry@));
        }
        std::mem::swap(&mut self.predicates, &mut predicates);
        self
    }

    /// Adds the values of `predicate` under its name, in their order.
    pub fn predicate(&mut self, predicate: Predicate) -> (r: &mut Self)
        ensures
            r@ == old(self)@.with_all(predicate@.name, predicate@.objects, 0),
            *final(self) == *final(r),
    {
        let mut i: usize = 0;
        while i < predicate.objects.len()
            invariant
                i <= predicate.objects.len(),
                old(self)@.with_all(predicate@.name, predicate@.objects, 0) == self@.with_all(
                    predicate@.name,
                    predicate@.objects,
                    i as int,
                ),
            decreases predicate.objects.len() - i,
        {
            self.insert(predicate.name.clone(), predicate.objects[i].clone());
            i = i + 1;
        }
        self
    }

    /// Adds a literal under `predicate`.
    pub fn property(&mut self, predicate: Iri, value: Literal) -> (r: &mut Self)
        ensures
            r@ == old(self)@.with(predicate@, ObjectView::Literal(value@)),
            *final(self) == *final(r),
    {
        self.insert(predicate, ResourceObject::Literal(value))
    }

    /// Adds a literal under `predicate`.
    pub fn value_of(&mut self, predicate: Iri, value: Literal) -> (r: &mut Self)
        ensures
            r@ == old(self)@.with(predicate@, ObjectView::Literal(value@)),
            *final(self) == *final(r),
    {
        self.insert(predicate, ResourceObject::Literal(value))
    }

    /// Adds a literal under `predicate`.
    pub fn literal(&mut self, predicate: Iri, value: Literal) -> (r: &mut Self)
        ensures
            r@ == old(self)@.with(predicate@, ObjectView::Literal(value@)),
            *final(self) == *final(r),
    {
        self.insert(predicate, ResourceObject::Literal(value))
    }

    /// Adds, under `predicate`, a container of literals of which one is to be
    /// chosen.
    pub fn property_alternatives(&mut self, predicate: Iri, values: &[Literal]) -> (r: &mut Self)
        ensures
            r@ == old(self)@.with(
                predicate@,
                ObjectView::Literals(ContainerKindView::Alt, literal_views(values@)),
            ),
            *final(self) == *final(r),
    {
        self.insert(predicate, ResourceObject::Literals(ContainerKind::Alt, clone_literals(values)))
    }

    /// Adds, under `predicate`, an unordered container of literals.
    pub fn property_bag(&mut self, predicate: Iri, values: &[Literal]) -> (r: &mut Self)
        ensures
            r@ == old(self)@.with(
                predicate@,
                ObjectView::Literals(ContainerKindView::Bag, literal_views(values@)),
            ),
            *final(self) == *final(r),
    {
        self.insert(predicate, ResourceObject::Literals(ContainerKind::Bag, clone_literals(values)))
    }

    /// Adds, under `predicate`, an ordered container of literals.
    pub fn property_sequence(&mut self, predicate: Iri, values: &[Literal]) -> (r: &mut Self)
        ensures
            r@ == old(self)@.with(
                predicate@,
                ObjectView::Literals(ContainerKindView::Sequence, literal_views(values@)),
            ),
            *final(self) == *final(r),
    {
        self.insert(
            predicate,
            ResourceObject::Literals(ContainerKind::Sequence, clone_literals(values)),
        )
    }

    /// Adds, under `predicate`, a container of literals of the class `kind`.
    pub fn property_container(&mut self, predicate: Iri, values: &[Literal], kind: Iri) -> (r:
        &mut Self)
        ensures
            r@ == old(self)@.with(
                predicate@,
                ObjectView::Literals(ContainerKindView::Other(kind@), literal_views(values@)),
            ),
            *final(self) == *final(r),
    {
        self.insert(
            predicate,
            ResourceObject::Literals(ContainerKind::Other(kind), clone_literals(values)),
        )
    }

    /// Adds, under `predicate`, the blank node with the label `name`.
    pub fn resource_blank_named(&mut self, predicate: Iri, name: &str) -> (r: &mut Self)
        ensures
            r@ == old(self)@.with(
                predicate@,
                ObjectView::Resource(ResourceView::empty(Some(NodeView::Blank(name@)))),
            ),
            *final(self) == *final(r),
    {
        self.insert(predicate, ResourceObject::Resource(Resource::blank_named(name)))
    }

    /// Adds, under `predicate`, the node that `name` names.
    pub fn resource_named(&mut self, predicate: Iri, name: Iri) -> (r: &mut Self)
        ensures
            r@ == old(self)@.with(
                predicate@,
                ObjectView::Resource(ResourceView::empty(Some(NodeView::Named(name@)))),
            ),
            *final(self) == *final(r),
    {
        self.insert(predicate, ResourceObject::Resource(Resource::named(name)))
    }

    /// Adds a resource under `predicate`.
    pub fn resource(&mut self, predicate: Iri, resource: Resource) -> (r: &mut Self)
        ensures
            r@ == old(self)@.with(predicate@, ObjectView::Resource(resource@)),
            *final(self) == *final(r),
    {
        self.insert(predicate, ResourceObject::Resource(resource))
    }

    /// Adds, under `predicate`, a container of resources of which one is to
    /// be chosen.
    pub fn resource_alternatives(&mut self, predicate: Iri, values: &[Resource]) -> (r: &mut Self)
        ensures
            r@ == old(self)@.with(
                predicate@,
                ObjectView::Resources(ContainerKindView::Alt, resource_views(values@)),
            ),
            *final(self) == *final(r),
    {
        self.insert(
            predicate,
            ResourceObject::Resources(ContainerKind::Alt, clone_resources(values)),
        )
    }

    /// Adds, under `predicate`, an unordered container of resources.
    pub fn resource_bag(&mut self, predicate: Iri, values: &[Resource]) -> (r: &mut Self)
        ensures
            r@ == old(self)@.with(
                predicate@,
                ObjectView::Resources(ContainerKindView::Bag, resource_views(values@)),
            ),
            *final(self) == *final(r),
    {
        self.insert(
            predicate,
            ResourceObject::Resources(ContainerKind::Bag, clone_resources(values)),
        )
    }

    /// Adds, under `predicate`, an ordered container of resources.
    pub fn resource_sequence(&mut self, predicate: Iri, values: &[Resource]) -> (r: &mut Self)
        ensures
            r@ == old(self)@.with(
                predicate@,
                ObjectView::Resources(ContainerKindView::Sequence, resource_views(values@)),
            ),
            *final(self) == *final(r),
    {
        self.insert(
            predicate,
            ResourceObject::Resources(ContainerKind::Sequence, clone_resources(values)),
        )
    }

    /// Adds, under `predicate`, a container of resources of the class `kind`.
    pub fn resource_container(&mut self, predicate: Iri, values: &[Resource], kind: Iri) -> (r:
        &mut Self)
        ensures
            r@ == old(self)@.with(
                predicate@,
                ObjectView::Resources(ContainerKindView::Other(kind@), resource_views(values@)),
            ),
            *final(self) == *final(r),
    {
        self.insert(
            predicate,
            ResourceObject::Resources(ContainerKind::Other(kind), clone_resources(values)),
        )
    }

    /// Says that the resource is an instance of the class that `name` names:
    /// adds that node under `rdf:type`.
    pub fn instance_of(&mut self, name: Iri) -> (r: &mut Self)
        ensures
            r@ == old(self)@.with(
                rdf::name("type"@),
                ObjectView::Resource(ResourceView::empty(Some(NodeView::Named(name@)))),
            ),
            *final(self) == *final(r),
    {
        self.insert(rdf::a_type(), ResourceObject::Resource(Resource::named(name)))
    }
}

/// The larger of two numbers.
pub open spec fn larger(a: nat, b: nat) -> nat {
    if a >= b {
        a
    } else {
        b
    }
}

/// The length of the label of a node, where it is blank, and else 0.
pub open spec fn label_len(node: Option<NodeView>) -> nat {
    match node {
        Some(NodeView::Blank(label)) => label.len(),
        _ => 0,
    }
}

/// The length of the longest label of a blank node that stands as a subject
/// anywhere in the tree.
pub open spec fn longest_label(resource: ResourceView) -> nat
    decreases resource,
{
    larger(label_len(resource.subject), longest_label_under(resource.predicates, 0))
}

/// `longest_label`, over the predicates from the `i`-th on.
pub open spec fn longest_label_under(predicates: Seq<PredicateView>, i: int) -> nat
    decreases predicates, predicates.len() - i,
{
    if 0 <= i < predicates.len() {
        larger(
            longest_label_among(predicates[i].objects, 0),
            longest_label_under(predicates, i + 1),
        )
    } else {
        0
    }
}

/// `longest_label`, over the values from the `j`-th on.
pub open spec fn longest_label_among(objects: Seq<ObjectView>, j: int) -> nat
    decreases objects, objects.len() - j,
{
    if 0 <= j < objects.len() {
        larger(longest_label_in(objects[j]), longest_label_among(objects, j + 1))
    } else {
        0
    }
}

/// `longest_label`, over one value.
pub open spec fn longest_label_in(object: ObjectView) -> nat
    decreases object,
{
    match object {
        ObjectView::Resource(resource) => longest_label(resource),
        ObjectView::Resources(_, resources) => longest_label_of(resources, 0),
        _ => 0,
    }
}

/// `longest_label`, over the resources from the `k`-th on.
pub open spec fn longest_label_of(resources: Seq<ResourceView>, k: int) -> nat
    decreases resources, resources.len() - k,
{
    if 0 <= k < resources.len() {
        larger(longest_label(resources[k]), longest_label_of(resources, k + 1))
    } else {
        0
    }
}

/// The label of the `n`-th blank node that is made for a tree whose longest
/// label has `pad` characters: `B`, then `pad` underscores, then the numeral
/// of `n`. It is longer than every label in the tree.
pub open spec fn fresh_label(pad: nat, n: nat) -> Seq<char> {
    seq!['B'] + Seq::new(pad, |i: int| '_') + decimal(n)
}

/// The statement of three terms.
pub open spec fn triple(subject: NodeView, predicate: Seq<char>, object: NodeView)
    -> StatementView {
    StatementView { subject, predicate, object }
}

/// The statements of a resource: its subject, which is a new blank node where
/// the resource has none, then for each predicate in order and each value in
/// order what `flatten_object` gives. `pad` and `next` say which labels new
/// blank nodes get. The result is the statements, the number of the next new
/// label, and the subject.
pub open spec fn flatten_resource(resource: ResourceView, pad: nat, next: nat) -> (
    Seq<StatementView>,
    nat,
    NodeView,
)
    decreases resource,
{
    let subject = match resource.subject {
        Some(subject) => subject,
        None => NodeView::Blank(fresh_label(pad, next)),
    };
    let first = if resource.subject is Some {
        next
    } else {
        next + 1
    };
    let (statements, after) = flatten_predicates(subject, resource.predicates, 0, pad, first);
    (statements, after, subject)
}

/// The statements of the predicates from the `i`-th on.
pub open spec fn flatten_predicates(
    subject: NodeView,
    predicates: Seq<PredicateView>,
    i: int,
    pad: nat,
    next: nat,
) -> (Seq<StatementView>, nat)
    decreases predicates, predicates.len() - i,
{
    if 0 <= i < predicates.len() {
        let (head, middle) = flatten_objects(
            subject,
            predicates[i].name,
            predicates[i].objects,
            0,
            pad,
            next,
        );
        let (tail, after) = flatten_predicates(subject, predicates, i + 1, pad, middle);
        (head + tail, after)
    } else {
        (Seq::empty(), next)
    }
}

/// The statements of the values from the `j`-th on.
pub open spec fn flatten_objects(
    subject: NodeView,
    predicate: Seq<char>,
    objects: Seq<ObjectView>,
    j: int,
    pad: nat,
    next: nat,
) -> (Seq<StatementView>, nat)
    decreases objects, objects.len() - j,
{
    if 0 <= j < objects.len() {
        let (head, middle) = flatten_object(subject, predicate, objects[j], pad, next);
        let (tail, after) = flatten_objects(subject, predicate, objects, j + 1, pad, middle);
        (head + tail, after)
    } else {
        (Seq::empty(), next)
    }
}

/// The statements of one value.
///
/// A literal gives the statement that links it to the subject. A resource
/// gives its own statements and then the link to its subject. A container
/// gives a new blank node, the link to it, its class under `rdf:type`, and
/// then its members under `rdf:_1`, `rdf:_2` and so on; a member that is a
/// resource gives its own statements before the statement that names it.
pub open spec fn flatten_object(
    subject: NodeView,
    predicate: Seq<char>,
    object: ObjectView,
    pad: nat,
    next: nat,
) -> (Seq<StatementView>, nat)
    decreases object,
{
    match object {
        ObjectView::Literal(literal) => (
            seq![triple(subject, predicate, NodeView::Literal(literal))],
            next,
        ),
        ObjectView::Resource(resource) => {
            let (statements, after, node) = flatten_resource(resource, pad, next);
            (statements.push(triple(subject, predicate, node)), after)
        },
        ObjectView::Literals(kind, literals) => {
            let container = NodeView::Blank(fresh_label(pad, next));
            (
                seq![
                    triple(subject, predicate, container),
                    triple(container, rdf::name("type"@), NodeView::Named(kind.class())),
                ] + literal_members(container, literals, 0),
                next + 1,
            )
        },
        ObjectView::Resources(kind, resources) => {
            let container = NodeView::Blank(fresh_label(pad, next));
            let (members, after) = resource_members(container, resources, 0, pad, next + 1);
            (
                seq![
                    triple(subject, predicate, container),
                    triple(container, rdf::name("type"@), NodeView::Named(kind.class())),
                ] + members,
                after,
            )
        },
    }
}

/// The statements that name the literals from the `k`-th on as members of
/// `container`.
pub open spec fn literal_members(container: NodeView, literals: Seq<LiteralView>, k: int) -> Seq<
    StatementView,
>
    decreases literals.len() - k,
{
    if 0 <= k < literals.len() {
        seq![
            triple(container, rdf::member_name((k + 1) as nat), NodeView::Literal(literals[k])),
        ] + literal_members(container, literals, k + 1)
    } else {
        Seq::empty()
    }
}

/// The statements of the resources from the `k`-th on as members of
/// `container`.
pub open spec fn resource_members(
    container: NodeView,
    resources: Seq<ResourceView>,
    k: int,
    pad: nat,
    next: nat,
) -> (Seq<StatementView>, nat)
    decreases resources, resources.len() - k,
{
    if 0 <= k < resources.len() {
        let (statements, middle, node) = flatten_resource(resources[k], pad, next);
        let (tail, after) = resource_members(container, resources, k + 1, pad, middle);
        (
            statements.push(triple(container, rdf::member_name((k + 1) as nat), node)) + tail,
            after,
        )
    } else {
        (Seq::empty(), next)
    }
}

/// The statements of a resource, with new blank nodes numbered from 1.
pub open spec fn flatten(resource: ResourceView) -> Seq<StatementView> {
    flatten_resource(resource, longest_label(resource), 1).0
}

/// The source of new labels during one flattening.
struct Labels {
    pad: usize,
    digits: Vec<char>,
    number: Ghost<nat>,
}

/// Replaces the numeral of `n` by the numeral of `n + 1`.
fn increment(digits: &mut Vec<char>, Ghost(n): Ghost<nat>)
    requires
        old(digits)@ == decimal(n),
    ensures
        final(digits)@ == decimal(n + 1),
    decreases n,
{
    let last = digits.pop().unwrap();
    assert(last == digit_char(n % 10));
    assert(digits@ == decimal(n).drop_last());
    proof {
        if n >= 10 {
            crate::text::lemma_decimal_value(n / 10);
            assert(decimal(n).drop_last() == decimal(n / 10));
        } else {
            assert(decimal(n).drop_last() == Seq::<char>::empty());
        }
    }
    if last != '9' {
        let up: char = ((last as u8) + 1) as char;
        digits.push(up);
        assert(up == digit_char((n + 1) % 10));
        assert((n + 1) / 10 == n / 10);
    } else {
        assert(n % 10 == 9);
        assert((n + 1) / 10 == n / 10 + 1);
        if digits.len() == 0 {
            digits.push('1');
            assert(n == 9);
            assert(digits@ == decimal(1));
        } else {
            increment(digits, Ghost(n / 10));
        }
        digits.push('0');
        assert(digits@ == decimal((n + 1) / 10).push(digit_char((n + 1) % 10)));
    }
}

impl Labels {
    spec fn wf(&self) -> bool {
        self.digits@ == decimal(self.number@)
    }

    /// Labels from the first on, for a tree whose longest label has `pad`
    /// characters.
    fn new(pad: usize) -> (r: Labels)
        ensures
            r.wf(),
            r.pad == pad,
            r.number@ == 1,
    {
        let mut digits: Vec<char> = Vec::new();
        digits.push('1');
        Labels { pad, digits, number: Ghost(1) }
    }

    /// The next label.
    fn take(&mut self) -> (label: String)
        requires
            old(self).wf(),
        ensures
            final(self).wf(),
            final(self).pad == old(self).pad,
            final(self).number@ == old(self).number@ + 1,
            label@ == fresh_label(old(self).pad as nat, old(self).number@),
    {
        let mut label = String::new();
        label.push('B');
        let mut i: usize = 0;
        while i < self.pad
            invariant
                i <= self.pad,
                *self == *old(self),
                label@ == seq!['B'] + Seq::new(i as nat, |k: int| '_'),
            decreases self.pad - i,
        {
            label.push('_');
            i = i + 1;
        }
        push_range(&mut label, &self.digits, 0, self.digits.len());
        assert(self.digits@.subrange(0, self.digits.len() as int) == self.digits@);
        increment(&mut self.digits, Ghost(self.number@));
        self.number = Ghost((self.number@ + 1) as nat);
        label
    }
}

/// Adds one statement to the list.
fn emit(sts: &mut Vec<Statement>, subject: &SubjectNode, predicate: Iri, object: ObjectNode)
    ensures
        statement_views(final(sts)@) == statement_views(old(sts)@).push(
            triple(subject@, predicate@, object@),
        ),
{
    sts.push(Statement::new(subject.clone(), predicate, object));
    assert(statement_views(sts@) =~= statement_views(old(sts)@).push(
        triple(subject@, predicate@, object@),
    ));
}

/// The subject as an object.
fn as_object(subject: &SubjectNode) -> (r: ObjectNode)
    ensures
        r@ == subject@,
{
    match subject {
        SubjectNode::Named(iri) => ObjectNode::Named(iri.clone()),
        SubjectNode::Blank(label) => ObjectNode::Blank(label.clone()),
    }
}

/// Adds the statements of `resource` to the list and returns its subject.
fn flatten_into(resource: &Resource, sts: &mut Vec<Statement>, labels: &mut Labels) -> (subject:
    SubjectNode)
    requires
        old(labels).wf(),
    ensures
        final(labels).wf(),
        final(labels).pad == old(labels).pad,
        ({
            let flat = flatten_resource(resource@, old(labels).pad as nat, old(labels).number@);
            &&& statement_views(final(sts)@) == statement_views(old(sts)@) + flat.0
            &&& final(labels).number@ == flat.1
            &&& subject@ == flat.2
        }),
    decreases resource,
{
    let subject = match &resource.subject {
        Some(subject) => subject.clone(),
        None => SubjectNode::Blank(labels.take()),
    };
    let ghost pad = labels.pad as nat;
    let ghost first = labels.number@;
    let ghost before = statement_views(sts@);
    let ghost predicates = resource@.predicates;
    let ghost whole = flatten_predicates(subject@, predicates, 0, pad, first);
    let mut i: usize = 0;
    assert(before + Seq::<StatementView>::empty() == before);
    while i < resource.predicates.len()
        invariant
            i <= resource.predicates.len(),
            labels.wf(),
            labels.pad == pad,
            predicates == resource@.predicates,
            predicates.len() == resource.predicates.len(),
            whole == flatten_predicates(subject@, predicates, 0, pad, first),
            ({
                let rest = flatten_predicates(subject@, predicates, i as int, pad, labels.number@);
                &&& before + whole.0 == statement_views(sts@) + rest.0
                &&& whole.1 == rest.1
            }),
        decreases resource.predicates.len() - i,
    {
        let ghost done = statement_views(sts@);
        let ghost number = labels.number@;
        let entry = &resource.predicates[i];
        assert(entry@ == predicates[i as int]);
        flatten_objects_into(&subject, &entry.name, &entry.objects, sts, labels);
        proof {
            let head = flatten_objects(
                subject@,
                predicates[i as int].name,
                predicates[i as int].objects,
                0,
                pad,
                number,
            );
            let tail = flatten_predicates(subject@, predicates, i + 1, pad, head.1);
            assert(done + (head.0 + tail.0) == (done + head.0) + tail.0);
        }
        i = i + 1;
    }
    assert(statement_views(sts@) + Seq::<StatementView>::empty() == statement_views(sts@));
    subject
}

/// Adds the statements of the values of one predicate to the list.
fn flatten_objects_into(
    subject: &SubjectNode,
    predicate: &Iri,
    objects: &Vec<ResourceObject>,
    sts: &mut Vec<Statement>,
    labels: &mut Labels,
)
    requires
        old(labels).wf(),
    ensures
        final(labels).wf(),
        final(labels).pad == old(labels).pad,
        ({
            let flat = flatten_objects(
                subject@,
                predicate@,
                object_views(objects@),
                0,
                old(labels).pad as nat,
                old(labels).number@,
            );
            &&& statement_views(final(sts)@) == statement_views(old(sts)@) + flat.0
            &&& final(labels).number@ == flat.1
        }),
    decreases objects@,
{
    let ghost pad = labels.pad as nat;
    let ghost first = labels.number@;
    let ghost before = statement_views(sts@);
    let ghost views = object_views(objects@);
    let ghost whole = flatten_objects(subject@, predicate@, views, 0, pad, first);
    let mut j: usize = 0;
    assert(before + Seq::<StatementView>::empty() == before);
    while j < objects.len()
        invariant
            j <= objects.len(),
            labels.wf(),
            labels.pad == pad,
            views == object_views(objects@),
            views.len() == objects.len(),
            whole == flatten_objects(subject@, predicate@, views, 0, pad, first),
            ({
                let rest = flatten_objects(subject@, predicate@, views, j as int, pad, labels.number@);
                &&& before + whole.0 == statement_views(sts@) + rest.0
                &&& whole.1 == rest.1
            }),
        decreases objects.len() - j,
    {
        let ghost done = statement_views(sts@);
        let ghost number = labels.number@;
        assert(objects@[j as int]@ == views[j as int]);
        flatten_object_into(subject, predicate, &objects[j], sts, labels);
        proof {
            let head = flatten_object(subject@, predicate@, views[j as int], pad, number);
            let tail = flatten_objects(subject@, predicate@, views, j + 1, pad, head.1);
            assert(done + (head.0 + tail.0) == (done + head.0) + tail.0);
        }
        j = j + 1;
    }
    assert(statement_views(sts@) + Seq::<StatementView>::empty() == statement_views(sts@));
}

/// Adds the statements of one value to the list.
fn flatten_object_into(
    subject: &SubjectNode,
    predicate: &Iri,
    object: &ResourceObject,
    sts: &mut Vec<Statement>,
    labels: &mut Labels,
)
    requires
        old(labels).wf(),
    ensures
        final(labels).wf(),
        final(labels).pad == old(labels).pad,
        ({
            let flat = flatten_object(
                subject@,
                predicate@,
                object@,
                old(labels).pad as nat,
                old(labels).number@,
            );
            &&& statement_views(final(sts)@) == statement_views(old(sts)@) + flat.0
            &&& final(labels).number@ == flat.1
        }),
    decreases object,
{
    let ghost before = statement_views(sts@);
    let ghost pad = labels.pad as nat;
    let ghost first = labels.number@;
    match object {
        ResourceObject::Literal(literal) => {
            emit(sts, subject, predicate.clone(), ObjectNode::Literal(literal.clone()));
            assert(before.push(triple(subject@, predicate@, NodeView::Literal(literal@))) == before
                + seq![triple(subject@, predicate@, NodeView::Literal(literal@))]);
        },
        ResourceObject::Resource(resource) => {
            let node = flatten_into(resource, sts, labels);
            let ghost flat = flatten_resource(resource@, pad, first);
            emit(sts, subject, predicate.clone(), as_object(&node));
            assert((before + flat.0).push(triple(subject@, predicate@, node@)) == before
                + flat.0.push(triple(subject@, predicate@, node@)));
        },
        ResourceObject::Literals(kind, literals) => {
            let container = SubjectNode::Blank(labels.take());
            emit(sts, subject, predicate.clone(), as_object(&container));
            emit(sts, &container, rdf::a_type(), ObjectNode::Named(kind.class()));
            let ghost head = seq![
                triple(subject@, predicate@, container@),
                triple(container@, rdf::name("type"@), NodeView::Named(kind@.class())),
            ];
            assert(statement_views(sts@) == before + head);
            let ghost views = literal_views(literals@);
            let ghost whole = literal_members(container@, views, 0);
            let mut k: usize = 0;
            while k < literals.len()
                invariant
                    k <= literals.len(),
                    views == literal_views(literals@),
                    whole == literal_members(container@, views, 0),
                    before + (head + whole) == statement_views(sts@) + literal_members(
                        container@,
                        views,
                        k as int,
                    ),
                decreases literals.len() - k,
            {
                let ghost done = statement_views(sts@);
                emit(sts, &container, rdf::member(k + 1), ObjectNode::Literal(literals[k].clone()));
                proof {
                    let item = triple(
                        container@,
                        rdf::member_name((k + 1) as nat),
                        NodeView::Literal(views[k as int]),
                    );
                    let tail = literal_members(container@, views, k + 1);
                    assert(done + (seq![item] + tail) == done.push(item) + tail);
                }
                k = k + 1;
            }
            assert(statement_views(sts@) + Seq::<StatementView>::empty() == statement_views(sts@));
        },
        ResourceObject::Resources(kind, resources) => {
            let container = SubjectNode::Blank(labels.take());
            emit(sts, subject, predicate.clone(), as_object(&container));
            emit(sts, &container, rdf::a_type(), ObjectNode::Named(kind.class()));
            let ghost head = seq![
                triple(subject@, predicate@, container@),
                triple(container@, rdf::name("type"@), NodeView::Named(kind@.class())),
            ];
            assert(statement_views(sts@) == before + head);
            flatten_members_into(&container, resources, sts, labels);
            proof {
                let members = resource_members(
                    container@,
                    resource_views(resources@),
                    0,
                    pad,
                    first + 1,
                );
                assert((before + head) + members.0 == before + (head + members.0));
            }
        },
    }
}

/// Adds the statements of the members of a container of resources to the
/// list.
fn flatten_members_into(
    container: &SubjectNode,
    resources: &Vec<Resource>,
    sts: &mut Vec<Statement>,
    labels: &mut Labels,
)
    requires
        old(labels).wf(),
    ensures
        final(labels).wf(),
        final(labels).pad == old(labels).pad,
        ({
            let flat = resource_members(
                container@,
                resource_views(resources@),
                0,
                old(labels).pad as nat,
                old(labels).number@,
            );
            &&& statement_views(final(sts)@) == statement_views(old(sts)@) + flat.0
            &&& final(labels).number@ == flat.1
        }),
    decreases resources@,
{
    let ghost pad = labels.pad as nat;
    let ghost first = labels.number@;
    let ghost before = statement_views(sts@);
    let ghost views = resource_views(resources@);
    let ghost whole = resource_members(container@, views, 0, pad, first);
    let mut k: usize = 0;
    assert(before + Seq::<StatementView>::empty() == before);
    while k < resources.len()
        invariant
            k <= resources.len(),
            labels.wf(),
            labels.pad == pad,
            views == resource_views(resources@),
            views.len() == resources.len(),
            whole == resource_members(container@, views, 0, pad, first),
            ({
                let rest = resource_members(container@, views, k as int, pad, labels.number@);
                &&& before + whole.0 == statement_views(sts@) + rest.0
                &&& whole.1 == rest.1
            }),
        decreases resources.len() - k,
    {
        let ghost done = statement_views(sts@);
        let ghost number = labels.number@;
        assert(resources@[k as int]@ == views[k as int]);
        let node = flatten_into(&resources[k], sts, labels);
        emit(sts, container, rdf::member(k + 1), as_object(&node));
        proof {
            let flat = flatten_resource(views[k as int], pad, number);
            let item = triple(container@, rdf::member_name((k + 1) as nat), node@);
            let tail = resource_members(container@, views, k + 1, pad, flat.1);
            assert(done + (flat.0.push(item) + tail.0) == (done + flat.0).push(item) + tail.0);
        }
        k = k + 1;
    }
    assert(statement_views(sts@) + Seq::<StatementView>::empty() == statement_views(sts@));
}

/// The length of a label in characters.
fn label_length(subject: &Option<SubjectNode>) -> (r: usize)
    ensures
        r == label_len(
            match subject {
                Some(subject) => Some(subject@),
                None => None,
            },
        ),
{
    match subject {
        Some(SubjectNode::Blank(label)) => label.as_str().unicode_len(),
        _ => 0,
    }
}

/// The larger of two numbers.
fn larger_of(a: usize, b: usize) -> (r: usize)
    ensures
        r == larger(a as nat, b as nat),
{
    if a >= b {
        a
    } else {
        b
    }
}

/// Computes `longest_label_of`.
fn longest_of(resources: &Vec<Resource>) -> (r: usize)
    ensures
        r == longest_label_of(resource_views(resources@), 0),
    decreases resources@,
{
    let ghost views = resource_views(resources@);
    let mut longest: usize = 0;
    let mut k: usize = resources.len();
    while k > 0
        invariant
            k <= resources.len(),
            views == resource_views(resources@),
            views.len() == resources.len(),
            longest == longest_label_of(views, k as int),
        decreases k,
    {
        k = k - 1;
        assert(resources@[k as int]@ == views[k as int]);
        longest = larger_of(resources[k].longest_label_length(), longest);
    }
    longest
}

/// Computes `longest_label_in`.
fn longest_in(object: &ResourceObject) -> (r: usize)
    ensures
        r == longest_label_in(object@),
    decreases object,
{
    match object {
        ResourceObject::Resource(resource) => resource.longest_label_length(),
        ResourceObject::Resources(_, resources) => longest_of(resources),
        _ => 0,
    }
}

/// Computes `longest_label_among`.
fn longest_among(objects: &Vec<ResourceObject>) -> (r: usize)
    ensures
        r == longest_label_among(object_views(objects@), 0),
    decreases objects@,
{
    let ghost views = object_views(objects@);
    let mut longest: usize = 0;
    let mut j: usize = objects.len();
    while j > 0
        invariant
            j <= objects.len(),
            views == object_views(objects@),
            views.len() == objects.len(),
            longest == longest_label_among(views, j as int),
        decreases j,
    {
        j = j - 1;
        assert(objects@[j as int]@ == views[j as int]);
        longest = larger_of(longest_in(&objects[j]), longest);
    }
    longest
}

impl Resource {
    /// The length of the longest label of a blank node that stands as a
    /// subject anywhere in the tree.
    pub fn longest_label_length(&self) -> (r: usize)
        ensures
            r == longest_label(self@),
        decreases self,
    {
        let ghost views = self@.predicates;
        let mut longest: usize = 0;
        let mut i: usize = self.predicates.len();
        while i > 0
            invariant
                i <= self.predicates.len(),
                views == self@.predicates,
                views.len() == self.predicates.len(),
                longest == longest_label_under(views, i as int),
            decreases i,
        {
            i = i - 1;
            assert(self.predicates@[i as int]@ == views[i as int]);
            longest = larger_of(longest_among(&self.predicates[i].objects), longest);
        }
        larger_of(label_length(&self.subject), longest)
    }

    /// The statements of the resource.
    ///
    /// A resource without predicates gives no statement, and every other
    /// resource gives at least one. A blank node that is made here gets a
    /// label that no blank node of the tree has, and that no other blank
    /// node made here has.
    pub fn to_statements(&self) -> (r: Vec<Statement>)
        ensures
            statement_views(r@) == flatten(self@),
            settled(self@.predicates),
            (r@.len() == 0) == (self@.predicates.len() == 0),
    {
        proof {
            use_type_invariant(self);
            lemma_flatten_empty(self@, longest_label(self@), 1);
        }
        let mut labels = Labels::new(self.longest_label_length());
        let mut sts: Vec<Statement> = Vec::new();
        assert(statement_views(sts@) =~= Seq::empty());
        flatten_into(self, &mut sts, &mut labels);
        assert(Seq::<StatementView>::empty() + flatten(self@) == flatten(self@));
        sts
    }
}

/// A node without its label, where it is blank.
pub open spec fn unlabelled(node: NodeView) -> NodeView {
    match node {
        NodeView::Blank(_) => NodeView::Blank(Seq::empty()),
        _ => node,
    }
}

/// A statement without the labels of its blank nodes.
pub open spec fn shape_of(statement: StatementView) -> StatementView {
    triple(unlabelled(statement.subject), statement.predicate, unlabelled(statement.object))
}

/// A list of statements without the labels of their blank nodes.
pub open spec fn shape(statements: Seq<StatementView>) -> Seq<StatementView> {
    Seq::new(statements.len(), |i: int| shape_of(statements[i]))
}

proof fn lemma_shape_add(a: Seq<StatementView>, b: Seq<StatementView>)
    ensures
        shape(a + b) == shape(a) + shape(b),
{
    assert(shape(a + b) =~= shape(a) + shape(b));
}

proof fn lemma_shape_push(a: Seq<StatementView>, x: StatementView)
    ensures
        shape(a.push(x)) == shape(a).push(shape_of(x)),
{
    assert(shape(a.push(x)) =~= shape(a).push(shape_of(x)));
}

/// Flattening depends on the labels of new blank nodes in those labels
/// only: whatever labels are handed out, the same tree gives as many
/// statements, with the same predicates and the same terms but for the labels
/// of blank nodes, and takes as many labels.
pub proof fn lemma_flatten_shape(
    resource: ResourceView,
    pad1: nat,
    next1: nat,
    pad2: nat,
    next2: nat,
)
    ensures
        shape(flatten_resource(resource, pad1, next1).0) == shape(
            flatten_resource(resource, pad2, next2).0,
        ),
        flatten_resource(resource, pad1, next1).0.len() == flatten_resource(
            resource,
            pad2,
            next2,
        ).0.len(),
        flatten_resource(resource, pad1, next1).1 - next1 == flatten_resource(
            resource,
            pad2,
            next2,
        ).1 - next2,
        flatten_resource(resource, pad1, next1).1 >= next1,
        unlabelled(flatten_resource(resource, pad1, next1).2) == unlabelled(
            flatten_resource(resource, pad2, next2).2,
        ),
    decreases resource,
{
    let f1 = flatten_resource(resource, pad1, next1);
    let f2 = flatten_resource(resource, pad2, next2);
    let first1 = if resource.subject is Some {
        next1
    } else {
        next1 + 1
    };
    let first2 = if resource.subject is Some {
        next2
    } else {
        next2 + 1
    };
    lemma_shape_predicates(f1.2, f2.2, resource.predicates, 0, pad1, first1, pad2, first2);
    assert(shape(f1.0).len() == f1.0.len());
    assert(shape(f2.0).len() == f2.0.len());
}

proof fn lemma_shape_predicates(
    subject1: NodeView,
    subject2: NodeView,
    predicates: Seq<PredicateView>,
    i: int,
    pad1: nat,
    next1: nat,
    pad2: nat,
    next2: nat,
)
    requires
        unlabelled(subject1) == unlabelled(subject2),
    ensures
        shape(flatten_predicates(subject1, predicates, i, pad1, next1).0) == shape(
            flatten_predicates(subject2, predicates, i, pad2, next2).0,
        ),
        flatten_predicates(subject1, predicates, i, pad1, next1).1 - next1 == flatten_predicates(
            subject2,
            predicates,
            i,
            pad2,
            next2,
        ).1 - next2,
        flatten_predicates(subject1, predicates, i, pad1, next1).1 >= next1,
    decreases predicates, predicates.len() - i,
{
    if 0 <= i < predicates.len() {
        let h1 = flatten_objects(
            subject1,
            predicates[i].name,
            predicates[i].objects,
            0,
            pad1,
            next1,
        );
        let h2 = flatten_objects(
            subject2,
            predicates[i].name,
            predicates[i].objects,
            0,
            pad2,
            next2,
        );
        lemma_shape_objects(
            subject1,
            subject2,
            predicates[i].name,
            predicates[i].objects,
            0,
            pad1,
            next1,
            pad2,
            next2,
        );
        lemma_shape_predicates(subject1, subject2, predicates, i + 1, pad1, h1.1, pad2, h2.1);
        let t1 = flatten_predicates(subject1, predicates, i + 1, pad1, h1.1);
        let t2 = flatten_predicates(subject2, predicates, i + 1, pad2, h2.1);
        lemma_shape_add(h1.0, t1.0);
        lemma_shape_add(h2.0, t2.0);
    }
}

proof fn lemma_shape_objects(
    subject1: NodeView,
    subject2: NodeView,
    predicate: Seq<char>,
    objects: Seq<ObjectView>,
    j: int,
    pad1: nat,
    next1: nat,
    pad2: nat,
    next2: nat,
)
    requires
        unlabelled(subject1) == unlabelled(subject2),
    ensures
        shape(flatten_objects(subject1, predicate, objects, j, pad1, next1).0) == shape(
            flatten_objects(subject2, predicate, objects, j, pad2, next2).0,
        ),
        flatten_objects(subject1, predicate, objects, j, pad1, next1).1 - next1
            == flatten_objects(subject2, predicate, objects, j, pad2, next2).1 - next2,
        flatten_objects(subject1, predicate, objects, j, pad1, next1).1 >= next1,
    decreases objects, objects.len() - j,
{
    if 0 <= j < objects.len() {
        let h1 = flatten_object(subject1, predicate, objects[j], pad1, next1);
        let h2 = flatten_object(subject2, predicate, objects[j], pad2, next2);
        lemma_shape_object(subject1, subject2, predicate, objects[j], pad1, next1, pad2, next2);
        lemma_shape_objects(subject1, subject2, predicate, objects, j + 1, pad1, h1.1, pad2, h2.1);
        let t1 = flatten_objects(subject1, predicate, objects, j + 1, pad1, h1.1);
        let t2 = flatten_objects(subject2, predicate, objects, j + 1, pad2, h2.1);
        lemma_shape_add(h1.0, t1.0);
        lemma_shape_add(h2.0, t2.0);
    }
}

proof fn lemma_shape_object(
    subject1: NodeView,
    subject2: NodeView,
    predicate: Seq<char>,
    object: ObjectView,
    pad1: nat,
    next1: nat,
    pad2: nat,
    next2: nat,
)
    requires
        unlabelled(subject1) == unlabelled(subject2),
    ensures
        shape(flatten_object(subject1, predicate, object, pad1, next1).0) == shape(
            flatten_object(subject2, predicate, object, pad2, next2).0,
        ),
        flatten_object(subject1, predicate, object, pad1, next1).1 - next1 == flatten_object(
            subject2,
            predicate,
            object,
            pad2,
            next2,
        ).1 - next2,
        flatten_object(subject1, predicate, object, pad1, next1).1 >= next1,
    decreases object,
{
    let f1 = flatten_object(subject1, predicate, object, pad1, next1);
    let f2 = flatten_object(subject2, predicate, object, pad2, next2);
    match object {
        ObjectView::Literal(literal) => {
            assert(shape(f1.0) =~= shape(f2.0));
        },
        ObjectView::Resource(resource) => {
            lemma_flatten_shape(resource, pad1, next1, pad2, next2);
            let r1 = flatten_resource(resource, pad1, next1);
            let r2 = flatten_resource(resource, pad2, next2);
            lemma_shape_push(r1.0, triple(subject1, predicate, r1.2));
            lemma_shape_push(r2.0, triple(subject2, predicate, r2.2));
        },
        ObjectView::Literals(kind, literals) => {
            let c1 = NodeView::Blank(fresh_label(pad1, next1));
            let c2 = NodeView::Blank(fresh_label(pad2, next2));
            lemma_shape_literal_members(c1, c2, literals, 0);
            let h1 = seq![
                triple(subject1, predicate, c1),
                triple(c1, rdf::name("type"@), NodeView::Named(kind.class())),
            ];
            let h2 = seq![
                triple(subject2, predicate, c2),
                triple(c2, rdf::name("type"@), NodeView::Named(kind.class())),
            ];
            assert(shape(h1) =~= shape(h2));
            lemma_shape_add(h1, literal_members(c1, literals, 0));
            lemma_shape_add(h2, literal_members(c2, literals, 0));
        },
        ObjectView::Resources(kind, resources) => {
            let c1 = NodeView::Blank(fresh_label(pad1, next1));
            let c2 = NodeView::Blank(fresh_label(pad2, next2));
            lemma_shape_resource_members(c1, c2, resources, 0, pad1, next1 + 1, pad2, next2 + 1);
            let h1 = seq![
                triple(subject1, predicate, c1),
                triple(c1, rdf::name("type"@), NodeView::Named(kind.class())),
            ];
            let h2 = seq![
                triple(subject2, predicate, c2),
                triple(c2, rdf::name("type"@), NodeView::Named(kind.class())),
            ];
            assert(shape(h1) =~= shape(h2));
            lemma_shape_add(h1, resource_members(c1, resources, 0, pad1, next1 + 1).0);
            lemma_shape_add(h2, resource_members(c2, resources, 0, pad2, next2 + 1).0);
        },
    }
}

proof fn lemma_shape_literal_members(
    container1: NodeView,
    container2: NodeView,
    literals: Seq<LiteralView>,
    k: int,
)
    requires
        unlabelled(container1) == unlabelled(container2),
    ensures
        shape(literal_members(container1, literals, k)) == shape(
            literal_members(container2, literals, k),
        ),
    decreases literals.len() - k,
{
    if 0 <= k < literals.len() {
        lemma_shape_literal_members(container1, container2, literals, k + 1);
        let i1 = seq![
            triple(container1, rdf::member_name((k + 1) as nat), NodeView::Literal(literals[k])),
        ];
        let i2 = seq![
            triple(container2, rdf::member_name((k + 1) as nat), NodeView::Literal(literals[k])),
        ];
        assert(shape(i1) =~= shape(i2));
        lemma_shape_add(i1, literal_members(container1, literals, k + 1));
        lemma_shape_add(i2, literal_members(container2, literals, k + 1));
    } else {
        assert(shape(literal_members(container1, literals, k)) =~= shape(
            literal_members(container2, literals, k),
        ));
    }
}

proof fn lemma_shape_resource_members(
    container1: NodeView,
    container2: NodeView,
    resources: Seq<ResourceView>,
    k: int,
    pad1: nat,
    next1: nat,
    pad2: nat,
    next2: nat,
)
    requires
        unlabelled(container1) == unlabelled(container2),
    ensures
        shape(resource_members(container1, resources, k, pad1, next1).0) == shape(
            resource_members(container2, resources, k, pad2, next2).0,
        ),
        resource_members(container1, resources, k, pad1, next1).1 - next1 == resource_members(
            container2,
            resources,
            k,
            pad2,
            next2,
        ).1 - next2,
        resource_members(container1, resources, k, pad1, next1).1 >= next1,
    decreases resources, resources.len() - k,
{
    if 0 <= k < resources.len() {
        lemma_flatten_shape(resources[k], pad1, next1, pad2, next2);
        let r1 = flatten_resource(resources[k], pad1, next1);
        let r2 = flatten_resource(resources[k], pad2, next2);
        lemma_shape_resource_members(
            container1,
            container2,
            resources,
            k + 1,
            pad1,
            r1.1,
            pad2,
            r2.1,
        );
        let i1 = triple(container1, rdf::member_name((k + 1) as nat), r1.2);
        let i2 = triple(container2, rdf::member_name((k + 1) as nat), r2.2);
        lemma_shape_push(r1.0, i1);
        lemma_shape_push(r2.0, i2);
        lemma_shape_add(r1.0.push(i1), resource_members(container1, resources, k + 1, pad1, r1.1).0);
        lemma_shape_add(r2.0.push(i2), resource_members(container2, resources, k + 1, pad2, r2.1).0);
    }
}

/// A container of literals gives two statements and one more for each
/// member, and the members are numbered from 1 in their order.
pub proof fn lemma_literal_container(
    subject: NodeView,
    predicate: Seq<char>,
    kind: ContainerKindView,
    literals: Seq<LiteralView>,
    pad: nat,
    next: nat,
)
    ensures
        ({
            let flat = flatten_object(
                subject,
                predicate,
                ObjectView::Literals(kind, literals),
                pad,
                next,
            ).0;
            let container = NodeView::Blank(fresh_label(pad, next));
            &&& flat.len() == literals.len() + 2
            &&& flat[0] == triple(subject, predicate, container)
            &&& flat[1] == triple(container, rdf::name("type"@), NodeView::Named(kind.class()))
            &&& forall|k: int|
                0 <= k < literals.len() ==> #[trigger] flat[k + 2] == triple(
                    container,
                    rdf::member_name((k + 1) as nat),
                    NodeView::Literal(literals[k]),
                )
        }),
{
    let container = NodeView::Blank(fresh_label(pad, next));
    lemma_literal_members(container, literals, 0);
    let head = seq![
        triple(subject, predicate, container),
        triple(container, rdf::name("type"@), NodeView::Named(kind.class())),
    ];
    let members = literal_members(container, literals, 0);
    let flat = flatten_object(subject, predicate, ObjectView::Literals(kind, literals), pad, next).0;
    assert(flat == head + members);
    assert forall|k: int| 0 <= k < literals.len() implies #[trigger] flat[k + 2] == triple(
        container,
        rdf::member_name((k + 1) as nat),
        NodeView::Literal(literals[k]),
    ) by {
        assert(flat[k + 2] == members[k - 0]);
    }
}

proof fn lemma_literal_members(container: NodeView, literals: Seq<LiteralView>, from: int)
    requires
        0 <= from <= literals.len(),
    ensures
        literal_members(container, literals, from).len() == literals.len() - from,
        forall|k: int|
            from <= k < literals.len() ==> #[trigger] literal_members(container, literals, from)[k
                - from] == triple(
                container,
                rdf::member_name((k + 1) as nat),
                NodeView::Literal(literals[k]),
            ),
    decreases literals.len() - from,
{
    if from < literals.len() {
        lemma_literal_members(container, literals, from + 1);
        let rest = literal_members(container, literals, from + 1);
        assert forall|k: int| from <= k < literals.len() implies #[trigger] literal_members(
            container,
            literals,
            from,
        )[k - from] == triple(
            container,
            rdf::member_name((k + 1) as nat),
            NodeView::Literal(literals[k]),
        ) by {
            if k > from {
                assert(literal_members(container, literals, from)[k - from] == rest[k - (from
                    + 1)]);
            }
        }
    }
}

/// The labels of new blank nodes differ from one another.
pub proof fn lemma_fresh_labels_differ(pad: nat, n: nat, m: nat)
    requires
        n != m,
    ensures
        fresh_label(pad, n) != fresh_label(pad, m),
{
    crate::text::lemma_decimal_value(n);
    crate::text::lemma_decimal_value(m);
    let head = seq!['B'] + Seq::new(pad, |i: int| '_');
    if fresh_label(pad, n) == fresh_label(pad, m) {
        assert((head + decimal(n)).skip(head.len() as int) =~= decimal(n));
        assert((head + decimal(m)).skip(head.len() as int) =~= decimal(m));
    }
}

/// A resource without predicates gives no statement, and a resource with a
/// value under its first predicate gives at least one.
pub proof fn lemma_flatten_empty(resource: ResourceView, pad: nat, next: nat)
    ensures
        resource.predicates.len() == 0 ==> flatten_resource(resource, pad, next).0.len() == 0,
        resource.predicates.len() > 0 && resource.predicates[0].objects.len() > 0
            ==> flatten_resource(resource, pad, next).0.len() > 0,
{
    if resource.predicates.len() > 0 && resource.predicates[0].objects.len() > 0 {
        let subject = flatten_resource(resource, pad, next).2;
        let first = if resource.subject is Some {
            next
        } else {
            next + 1
        };
        let entry = resource.predicates[0];
        let head = flatten_object(subject, entry.name, entry.objects[0], pad, first);
        assert(head.0.len() > 0);
        let objects = flatten_objects(subject, entry.name, entry.objects, 0, pad, first);
        assert(objects.0.len() >= head.0.len());
    }
}

/// Whether a blank node with the label `label` stands as a subject somewhere
/// in the tree.
pub open spec fn has_label(resource: ResourceView, label: Seq<char>) -> bool
    decreases resource,
{
    resource.subject == Some(NodeView::Blank(label)) || has_label_under(
        resource.predicates,
        0,
        label,
    )
}

/// `has_label`, over the predicates from the `i`-th on.
pub open spec fn has_label_under(predicates: Seq<PredicateView>, i: int, label: Seq<char>) -> bool
    decreases predicates, predicates.len() - i,
{
    if 0 <= i < predicates.len() {
        has_label_among(predicates[i].objects, 0, label) || has_label_under(
            predicates,
            i + 1,
            label,
        )
    } else {
        false
    }
}

/// `has_label`, over the values from the `j`-th on.
pub open spec fn has_label_among(objects: Seq<ObjectView>, j: int, label: Seq<char>) -> bool
    decreases objects, objects.len() - j,
{
    if 0 <= j < objects.len() {
        has_label_in(objects[j], label) || has_label_among(objects, j + 1, label)
    } else {
        false
    }
}

/// `has_label`, over one value.
pub open spec fn has_label_in(object: ObjectView, label: Seq<char>) -> bool
    decreases object,
{
    match object {
        ObjectView::Resource(resource) => has_label(resource, label),
        ObjectView::Resources(_, resources) => has_label_of(resources, 0, label),
        _ => false,
    }
}

/// `has_label`, over the resources from the `k`-th on.
pub open spec fn has_label_of(resources: Seq<ResourceView>, k: int, label: Seq<char>) -> bool
    decreases resources, resources.len() - k,
{
    if 0 <= k < resources.len() {
        has_label(resources[k], label) || has_label_of(resources, k + 1, label)
    } else {
        false
    }
}

/// No label in the tree is longer than the longest.
pub proof fn lemma_longest_label(resource: ResourceView, label: Seq<char>)
    requires
        has_label(resource, label),
    ensures
        label.len() <= longest_label(resource),
    decreases resource,
{
    if has_label_under(resource.predicates, 0, label) {
        lemma_longest_label_under(resource.predicates, 0, label);
    }
}

proof fn lemma_longest_label_under(predicates: Seq<PredicateView>, i: int, label: Seq<char>)
    requires
        has_label_under(predicates, i, label),
    ensures
        label.len() <= longest_label_under(predicates, i),
    decreases predicates, predicates.len() - i,
{
    if has_label_among(predicates[i].objects, 0, label) {
        lemma_longest_label_among(predicates[i].objects, 0, label);
    } else {
        lemma_longest_label_under(predicates, i + 1, label);
    }
}

proof fn lemma_longest_label_among(objects: Seq<ObjectView>, j: int, label: Seq<char>)
    requires
        has_label_among(objects, j, label),
    ensures
        label.len() <= longest_label_among(objects, j),
    decreases objects, objects.len() - j,
{
    if has_label_in(objects[j], label) {
        match objects[j] {
            ObjectView::Resource(resource) => {
                lemma_longest_label(resource, label);
                assert(longest_label_in(objects[j]) == longest_label(resource));
            },
            ObjectView::Resources(_, resources) => {
                lemma_longest_label_of(resources, 0, label);
                assert(longest_label_in(objects[j]) == longest_label_of(resources, 0));
            },
            _ => {},
        }
        assert(label.len() <= longest_label_in(objects[j]));
    } else {
        lemma_longest_label_among(objects, j + 1, label);
    }
}

proof fn lemma_longest_label_of(resources: Seq<ResourceView>, k: int, label: Seq<char>)
    requires
        has_label_of(resources, k, label),
    ensures
        label.len() <= longest_label_of(resources, k),
    decreases resources, resources.len() - k,
{
    if has_label(resources[k], label) {
        lemma_longest_label(resources[k], label);
    } else {
        lemma_longest_label_of(resources, k + 1, label);
    }
}

/// The label of a new blank node is the label of no blank node that stands
/// as a subject in the tree.
pub proof fn lemma_fresh_label_is_new(resource: ResourceView, n: nat, label: Seq<char>)
    requires
        has_label(resource, label),
    ensures
        fresh_label(longest_label(resource), n) != label,
{
    lemma_longest_label(resource, label);
    crate::text::lemma_decimal_value(n);
}

impl From<Resource> for Vec<Statement> {
    /// The statements of the resource.
    fn from(resource: Resource) -> (r: Vec<Statement>)
        ensures
            statement_views(r@) == flatten(resource@),
    {
        resource.to_statements()
    }
}

impl FromSpecImpl<Resource> for Vec<Statement> {
    open spec fn obeys_from_spec() -> bool {
        false
    }

    open spec fn from_spec(resource: Resource) -> Vec<Statement> {
        arbitrary()
    }
}

/// The content of a list of shared statements.
pub open spec fn shared_statement_views(statements: Seq<Rc<Statement>>) -> Seq<StatementView> {
    Seq::new(statements.len(), |i: int| (*statements[i])@)
}

impl From<Resource> for Vec<Rc<Statement>> {
    /// The statements of the resource, each behind a counted reference.
    fn from(resource: Resource) -> (r: Vec<Rc<Statement>>)
        ensures
            shared_statement_views(r@) == flatten(resource@),
    {
        let mut statements = resource.to_statements();
        let ghost all = statement_views(statements@);
        let mut out: Vec<Rc<Statement>> = Vec::new();
        let mut rest: Vec<Statement> = Vec::new();
        // the statements are taken from the end, and the list is turned
        // round again afterwards
        while statements.len() > 0
            invariant
                statements@.len() + rest@.len() == all.len(),
                forall|i: int| 0 <= i < statements@.len() ==> (#[trigger] statements@[i])@ == all[i],
                forall|i: int|
                    0 <= i < rest@.len() ==> (#[trigger] rest@[i])@ == all[all.len() - 1 - i],
            decreases statements.len(),
        {
            let last = statements.pop().unwrap();
            rest.push(last);
        }
        while rest.len() > 0
            invariant
                out@.len() + rest@.len() == all.len(),
                forall|i: int| 0 <= i < out@.len() ==> (*(#[trigger] out@[i]))@ == all[i],
                forall|i: int|
                    0 <= i < rest@.len() ==> (#[trigger] rest@[i])@ == all[all.len() - 1 - i],
            decreases rest.len(),
        {
            let next = rest.pop().unwrap();
            out.push(Rc::new(next));
        }
        assert(shared_statement_views(out@) =~= all);
        out
    }
}

impl FromSpecImpl<Resource> for Vec<Rc<Statement>> {
    open spec fn obeys_from_spec() -> bool {
        false
    }

    open spec fn from_spec(resource: Resource) -> Vec<Rc<Statement>> {
        arbitrary()
    }
}

} // verus!
