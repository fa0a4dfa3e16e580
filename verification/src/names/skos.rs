//! Names of the SKOS vocabulary.

use crate::iri::Iri;
use crate::text::push_text;
use vstd::prelude::*;

verus! {

/// The prefix that the vocabulary is usually written with.
pub const PREFIX: &'static str = "skos";

/// The namespace of the vocabulary.
pub const NAMESPACE: &'static str = "http://www.w3.org/2004/02/skos/core#";

/// The name `local` in this namespace.
pub open spec fn name(local: Seq<char>) -> Seq<char> {
    NAMESPACE@ + local
}

/// The IRI of the name `local` in this namespace.
fn iri_of(local: &str) -> (r: Iri)
    ensures
        r@ == name(local@),
        !r.relative(),
{
    let mut text = String::new();
    push_text(&mut text, NAMESPACE);
    push_text(&mut text, local);
    Iri::known(text.as_str())
}

/// The namespace itself.
pub fn namespace_iri() -> (r: Iri)
    ensures
        r@ == NAMESPACE@,
        !r.relative(),
{
    Iri::known(NAMESPACE)
}

/// `skos:ConceptScheme`.
pub fn concept_scheme() -> (r: Iri)
    ensures
        r@ == name("ConceptScheme"@),
        !r.relative(),
{
    iri_of("ConceptScheme")
}

/// `skos:Concept`.
pub fn concept() -> (r: Iri)
    ensures
        r@ == name("Concept"@),
        !r.relative(),
{
    iri_of("Concept")
}

/// `skos:Collection`.
pub fn collection() -> (r: Iri)
    ensures
        r@ == name("Collection"@),
        !r.relative(),
{
    iri_of("Collection")
}

/// `skos:OrderedCollection`.
pub fn ordered_collection() -> (r: Iri)
    ensures
        r@ == name("OrderedCollection"@),
        !r.relative(),
{
    iri_of("OrderedCollection")
}

/// `skos:topConceptOf`.
pub fn top_concept_of() -> (r: Iri)
    ensures
        r@ == name("topConceptOf"@),
        !r.relative(),
{
    iri_of("topConceptOf")
}

/// `skos:hasTopConcept`.
pub fn has_top_concept() -> (r: Iri)
    ensures
        r@ == name("hasTopConcept"@),
        !r.relative(),
{
    iri_of("hasTopConcept")
}

/// `skos:inScheme`.
pub fn in_scheme() -> (r: Iri)
    ensures
        r@ == name("inScheme"@),
        !r.relative(),
{
    iri_of("inScheme")
}

/// `skos:prefLabel`.
pub fn pref_label() -> (r: Iri)
    ensures
        r@ == name("prefLabel"@),
        !r.relative(),
{
    iri_of("prefLabel")
}

/// `skos:altLabel`.
pub fn alt_label() -> (r: Iri)
    ensures
        r@ == name("altLabel"@),
        !r.relative(),
{
    iri_of("altLabel")
}

/// `skos:hiddenLabel`.
pub fn hidden_label() -> (r: Iri)
    ensures
        r@ == name("hiddenLabel"@),
        !r.relative(),
{
    iri_of("hiddenLabel")
}

/// `skos:changeNote`.
pub fn change_note() -> (r: Iri)
    ensures
        r@ == name("changeNote"@),
        !r.relative(),
{
    iri_of("changeNote")
}

/// `skos:definition`.
pub fn definition() -> (r: Iri)
    ensures
        r@ == name("definition"@),
        !r.relative(),
{
    iri_of("definition")
}

/// `skos:editorialNote`.
pub fn editorial_note() -> (r: Iri)
    ensures
        r@ == name("editorialNote"@),
        !r.relative(),
{
    iri_of("editorialNote")
}

/// `skos:example`.
pub fn example() -> (r: Iri)
    ensures
        r@ == name("example"@),
        !r.relative(),
{
    iri_of("example")
}

/// `skos:historyNote`.
pub fn history_note() -> (r: Iri)
    ensures
        r@ == name("historyNote"@),
        !r.relative(),
{
    iri_of("historyNote")
}

/// `skos:note`.
pub fn note() -> (r: Iri)
    ensures
        r@ == name("note"@),
        !r.relative(),
{
    iri_of("note")
}

/// `skos:scopeNote`.
pub fn scope_note() -> (r: Iri)
    ensures
        r@ == name("scopeNote"@),
        !r.relative(),
{
    iri_of("scopeNote")
}

/// `skos:notation`.
pub fn notation() -> (r: Iri)
    ensures
        r@ == name("notation"@),
        !r.relative(),
{
    iri_of("notation")
}

/// `skos:broader`.
pub fn broader() -> (r: Iri)
    ensures
        r@ == name("broader"@),
        !r.relative(),
{
    iri_of("broader")
}

/// `skos:broaderTransitive`.
pub fn broader_transitive() -> (r: Iri)
    ensures
        r@ == name("broaderTransitive"@),
        !r.relative(),
{
    iri_of("broaderTransitive")
}

/// `skos:narrower`.
pub fn narrower() -> (r: Iri)
    ensures
        r@ == name("narrower"@),
        !r.relative(),
{
    iri_of("narrower")
}

/// `skos:narrowerTransitive`.
pub fn narrower_transitive() -> (r: Iri)
    ensures
        r@ == name("narrowerTransitive"@),
        !r.relative(),
{
    iri_of("narrowerTransitive")
}

/// `skos:related`.
pub fn related() -> (r: Iri)
    ensures
        r@ == name("related"@),
        !r.relative(),
{
    iri_of("related")
}

/// `skos:broadMatch`.
pub fn broad_match() -> (r: Iri)
    ensures
        r@ == name("broadMatch"@),
        !r.relative(),
{
    iri_of("broadMatch")
}

/// `skos:closeMatch`.
pub fn close_match() -> (r: Iri)
    ensures
        r@ == name("closeMatch"@),
        !r.relative(),
{
    iri_of("closeMatch")
}

/// `skos:exactMatch`.
pub fn exact_match() -> (r: Iri)
    ensures
        r@ == name("exactMatch"@),
        !r.relative(),
{
    iri_of("exactMatch")
}

/// `skos:narrowMatch`.
pub fn narrow_match() -> (r: Iri)
    ensures
        r@ == name("narrowMatch"@),
        !r.relative(),
{
    iri_of("narrowMatch")
}

/// `skos:relatedMatch`.
pub fn related_match() -> (r: Iri)
    ensures
        r@ == name("relatedMatch"@),
        !r.relative(),
{
    iri_of("relatedMatch")
}

/// `skos:member`.
pub fn member() -> (r: Iri)
    ensures
        r@ == name("member"@),
        !r.relative(),
{
    iri_of("member")
}

/// `skos:memberList`.
pub fn member_list() -> (r: Iri)
    ensures
        r@ == name("memberList"@),
        !r.relative(),
{
    iri_of("memberList")
}

} // verus!
