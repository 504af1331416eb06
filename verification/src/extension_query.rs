use std::sync::Arc;

use tantivy::schema::Schema;
use tantivy::Term;
use vstd::prelude::*;
use vstd::string::*;

use crate::query::{
    found_for, query_extension, ExtensionQueryBuild, QueryExtension, QueryExtensions,
};

verus! {

/// A query evaluated by an application-registered [`QueryExtension`].
///
/// It is an opaque leaf: it is built through the registry, the terms it reports are warmed
/// up, the extension's warmup runs, then it executes like any tantivy query. A node on
/// which no extension of this `kind` is registered rejects the query.
#[derive(Debug, PartialEq, Eq)]
pub struct ExtensionQuery {
    pub kind: String,
    pub payload: serde_json::Value,
}

impl Clone for ExtensionQuery {
    fn clone(&self) -> (copy: Self)
        ensures
            copy == *self,
    {
        ExtensionQuery { kind: self.kind.clone(), payload: self.payload.clone() }
    }
}

/// The node of a query AST that holds an extension query.
#[derive(Debug, PartialEq, Eq)]
pub enum QueryAst {
    Extension(ExtensionQuery),
}

impl Clone for QueryAst {
    fn clone(&self) -> (copy: Self)
        ensures
            copy == *self,
    {
        match self {
            QueryAst::Extension(extension_query) => QueryAst::Extension(extension_query.clone()),
        }
    }
}

impl From<ExtensionQuery> for QueryAst {
    fn from(extension_query: ExtensionQuery) -> (ast: Self)
        ensures
            ast == QueryAst::Extension(extension_query),
    {
        QueryAst::Extension(extension_query)
    }
}

impl vstd::std_specs::convert::FromSpecImpl<ExtensionQuery> for QueryAst {
    open spec fn obeys_from_spec() -> bool {
        true
    }

    open spec fn from_spec(extension_query: ExtensionQuery) -> Self {
        QueryAst::Extension(extension_query)
    }
}

/// The executable form of an extension query: a leaf that holds the extension's query.
pub enum TantivyQueryAst<Q> {
    Leaf(Q),
}

/// Why a query cannot be built.
#[derive(Debug)]
pub enum InvalidQuery {
    Other(String),
}

impl InvalidQuery {
    /// The error's message.
    pub open spec fn message(self) -> Seq<char> {
        match self {
            InvalidQuery::Other(message) => message@,
        }
    }
}

/// What is said of a `kind` that no extension answers to.
pub open spec fn unknown_extension_message(kind: Seq<char>) -> Seq<char> {
    "unknown query extension `"@ + kind + "`: it is not registered on this node"@
}

/// What is said when the extension of `kind` refuses a query because of `error`.
pub open spec fn refused_query_message(kind: Seq<char>, error: Seq<char>) -> Seq<char> {
    kind + " query: "@ + error
}

/// The contents of [`ExtensionOutputs`].
#[verifier::ext_equal]
pub struct OutputsView<W: ?Sized> {
    /// Warmups, in the order in which their queries were built.
    pub warmups: Seq<Arc<W>>,
    /// Required terms, in the order in which their queries were built.
    pub required_terms: Seq<Term>,
}

impl<W: ?Sized> OutputsView<W> {
    /// No warmup and no term.
    pub open spec fn empty() -> Self {
        OutputsView { warmups: Seq::empty(), required_terms: Seq::empty() }
    }

    /// These outputs without their warmups.
    pub open spec fn without_warmups(self) -> Self {
        OutputsView { warmups: Seq::empty(), ..self }
    }

    /// These outputs without their terms.
    pub open spec fn without_required_terms(self) -> Self {
        OutputsView { required_terms: Seq::empty(), ..self }
    }

    /// These outputs and, after them, those of `build`.
    pub open spec fn and<Q>(self, build: ExtensionQueryBuild<Q, W>) -> Self {
        OutputsView {
            warmups: match build.warmup {
                Some(warmup) => self.warmups.push(warmup),
                None => self.warmups,
            },
            required_terms: self.required_terms + build.required_terms@,
        }
    }
}

/// Side outputs of extension queries collected while building one tantivy query.
pub struct ExtensionOutputs<W: ?Sized> {
    warmups: Vec<Arc<W>>,
    required_terms: Vec<Term>,
}

impl<W: ?Sized> View for ExtensionOutputs<W> {
    type V = OutputsView<W>;

    closed spec fn view(&self) -> OutputsView<W> {
        OutputsView { warmups: self.warmups@, required_terms: self.required_terms@ }
    }
}

impl<W: ?Sized> Default for ExtensionOutputs<W> {
    fn default() -> (outputs: Self)
        ensures
            outputs@ == OutputsView::<W>::empty(),
            outputs@.warmups.len() == 0,
            outputs@.required_terms.len() == 0,
    {
        ExtensionOutputs { warmups: Vec::new(), required_terms: Vec::new() }
    }
}

impl<W: ?Sized> ExtensionOutputs<W> {
    /// Warmups to run before the query executes. They are handed out once.
    pub fn take_warmups(&mut self) -> (warmups: Vec<Arc<W>>)
        ensures
            warmups@ == old(self)@.warmups,
            final(self)@ == old(self)@.without_warmups(),
            final(self)@.warmups.len() == 0,
            final(self)@.required_terms == old(self)@.required_terms,
    {
        let mut warmups = Vec::new();
        std::mem::swap(&mut warmups, &mut self.warmups);
        warmups
    }

    /// Terms that every matching document contains. They are handed out once.
    pub fn take_required_terms(&mut self) -> (required_terms: Vec<Term>)
        ensures
            required_terms@ == old(self)@.required_terms,
            final(self)@ == old(self)@.without_required_terms(),
            final(self)@.required_terms.len() == 0,
            final(self)@.warmups == old(self)@.warmups,
    {
        let mut required_terms = Vec::new();
        std::mem::swap(&mut required_terms, &mut self.required_terms);
        required_terms
    }
}

/// Whether `result` and the step from `before` to `after` are what comes of `built`, an
/// outcome of the extension of `kind`: a query becomes a leaf and its side outputs are added
/// behind the earlier ones; an error becomes a message that names the `kind`, and adds
/// nothing.
pub open spec fn settles<Q, W: ?Sized>(
    kind: Seq<char>,
    built: Result<ExtensionQueryBuild<Q, W>, String>,
    before: OutputsView<W>,
    after: OutputsView<W>,
    result: Result<TantivyQueryAst<Q>, InvalidQuery>,
) -> bool {
    match built {
        Ok(build) => {
            &&& result == Ok::<_, InvalidQuery>(TantivyQueryAst::Leaf(build.query))
            &&& after == before.and(build)
        },
        Err(error) => {
            &&& result matches Err(invalid) && invalid.message() == refused_query_message(
                kind,
                error@,
            )
            &&& after == before
        },
    }
}

/// Turn the outcome of an extension's `build` into a query, and collect its side outputs.
pub fn record_build<Q, W: ?Sized>(
    kind: &str,
    built: Result<ExtensionQueryBuild<Q, W>, String>,
    extension_outputs: &mut ExtensionOutputs<W>,
) -> (result: Result<TantivyQueryAst<Q>, InvalidQuery>)
    ensures
        settles(kind@, built, old(extension_outputs)@, final(extension_outputs)@, result),
        built matches Ok(build) ==> {
            &&& result == Ok::<_, InvalidQuery>(TantivyQueryAst::Leaf(build.query))
            &&& final(extension_outputs)@.warmups == old(extension_outputs)@.warmups + (
            match build.warmup {
                Some(warmup) => seq![warmup],
                None => seq![],
            })
            &&& final(extension_outputs)@.required_terms == old(extension_outputs)@.required_terms
                + build.required_terms@
        },
        built matches Err(error) ==> {
            &&& result matches Err(InvalidQuery::Other(text)) && text@ == kind@ + " query: "@
                + error@
            &&& final(extension_outputs)@.warmups == old(extension_outputs)@.warmups
            &&& final(extension_outputs)@.required_terms
                == old(extension_outputs)@.required_terms
        },
{
    match built {
        Ok(build) => {
            if let Some(warmup) = build.warmup {
                extension_outputs.warmups.push(warmup);
            }
            let mut required_terms = build.required_terms;
            extension_outputs.required_terms.append(&mut required_terms);
            Ok(TantivyQueryAst::Leaf(build.query))
        },
        Err(error) => {
            let mut message = kind.to_owned();
            message.append(" query: ");
            message.append(error.as_str());
            Err(InvalidQuery::Other(message))
        },
    }
}

impl ExtensionQuery {
    /// Build this query with the extension registered for its `kind`, against a split's
    /// schema, and collect the extension's side outputs.
    pub fn build_tantivy_ast_impl<E: QueryExtension + ?Sized>(
        &self,
        extensions: &QueryExtensions<E>,
        schema: &Schema,
        extension_outputs: &mut ExtensionOutputs<E::Warmup>,
    ) -> (result: Result<TantivyQueryAst<E::Query>, InvalidQuery>)
        ensures
            match found_for(extensions@, self.kind@) {
                None => {
                    &&& result matches Err(invalid) && invalid.message()
                        == unknown_extension_message(self.kind@)
                    &&& final(extension_outputs)@ == old(extension_outputs)@
                },
                Some(extension) => exists|
                    built: Result<ExtensionQueryBuild<E::Query, E::Warmup>, String>,
                | #[trigger]
                    extension.may_build(self.payload, *schema, built) && settles(
                        self.kind@,
                        built,
                        old(extension_outputs)@,
                        final(extension_outputs)@,
                        result,
                    ),
            },
            !extensions@.contains_key(self.kind@) ==> {
                &&& result matches Err(InvalidQuery::Other(text)) && text@
                    == "unknown query extension `"@ + self.kind@
                    + "`: it is not registered on this node"@
                &&& final(extension_outputs)@.warmups == old(extension_outputs)@.warmups
                &&& final(extension_outputs)@.required_terms
                    == old(extension_outputs)@.required_terms
            },
    {
        match query_extension(extensions, self.kind.as_str()) {
            Some(extension) => {
                let built = extension.build(&self.payload, schema);
                record_build(self.kind.as_str(), built, extension_outputs)
            },
            None => {
                let mut message = "unknown query extension `".to_owned();
                message.append(self.kind.as_str());
                message.append("`: it is not registered on this node");
                Err(InvalidQuery::Other(message))
            },
        }
    }
}

/// An extension query becomes the AST node that holds it, unchanged.
pub proof fn law_query_is_wrapped_unchanged(query: ExtensionQuery, ast: QueryAst)
    requires
        call_ensures(<QueryAst as From<ExtensionQuery>>::from, (query,), ast),
    ensures
        ast is Extension,
        ast->Extension_0.kind == query.kind,
        ast->Extension_0.payload == query.payload,
{
}

/// What comes of an outcome of `build`, said of the query, the message and the outputs
/// themselves. A query that is built becomes the leaf; its warmup, where it has one, goes
/// behind the earlier ones, and so do all its terms, with a warmup or without. An error
/// becomes a message of the kind and the extension's own words, and adds nothing.
pub proof fn law_outcome_decides_query_and_outputs<Q, W: ?Sized>(
    kind: Seq<char>,
    built: Result<ExtensionQueryBuild<Q, W>, String>,
    before: OutputsView<W>,
    after: OutputsView<W>,
    result: Result<TantivyQueryAst<Q>, InvalidQuery>,
)
    requires
        settles(kind, built, before, after, result),
    ensures
        built matches Ok(build) ==> {
            &&& result == Ok::<_, InvalidQuery>(TantivyQueryAst::Leaf(build.query))
            &&& build.warmup is None ==> after.warmups == before.warmups
            &&& build.warmup is Some ==> after.warmups == before.warmups.push(build.warmup->0)
            &&& after.required_terms == before.required_terms + build.required_terms@
        },
        built matches Err(error) ==> {
            &&& result matches Err(InvalidQuery::Other(text)) && text@ == kind + " query: "@
                + error@
            &&& after.warmups == before.warmups
            &&& after.required_terms == before.required_terms
        },
{
}

/// Messages carry their kind, and a refusal the extension's own words, whole and in their
/// place; so two kinds never get the same message.
pub proof fn law_messages_tell_kinds_apart(kind: Seq<char>, other: Seq<char>, error: Seq<char>)
    ensures
        unknown_extension_message(kind) == unknown_extension_message(other) ==> kind == other,
        refused_query_message(kind, error) == refused_query_message(other, error) ==> kind
            == other,
        unknown_extension_message(kind).subrange(
            "unknown query extension `"@.len() as int,
            "unknown query extension `"@.len() as int + kind.len(),
        ) == kind,
        refused_query_message(kind, error).take(kind.len() as int) == kind,
        refused_query_message(kind, error).skip(kind.len() as int + " query: "@.len()) == error,
{
    let front = "unknown query extension `"@;
    let middle = " query: "@;
    assert(unknown_extension_message(kind).subrange(
        front.len() as int,
        front.len() as int + kind.len(),
    ) == kind);
    assert(unknown_extension_message(other).subrange(
        front.len() as int,
        front.len() as int + other.len(),
    ) == other);
    assert(refused_query_message(kind, error).take(kind.len() as int) == kind);
    assert(refused_query_message(other, error).take(other.len() as int) == other);
    assert(refused_query_message(kind, error).skip(kind.len() as int + middle.len()) == error);
    assert(unknown_extension_message(kind).len() == front.len() + kind.len()
        + "`: it is not registered on this node"@.len());
    assert(refused_query_message(kind, error).len() == kind.len() + middle.len() + error.len());
}

/// The outputs after several queries were built one after the other.
pub open spec fn collected<Q, W: ?Sized>(
    before: OutputsView<W>,
    builds: Seq<ExtensionQueryBuild<Q, W>>,
) -> OutputsView<W>
    decreases builds.len(),
{
    if builds.len() == 0 {
        before
    } else {
        collected(before, builds.drop_last()).and(builds.last())
    }
}

/// The warmups collected are those of the queries that have one, in the order in which the
/// queries were built, behind those collected before; the terms are those of all of them, in
/// that order too.
pub proof fn law_outputs_are_collected_in_order<Q, W: ?Sized>(
    before: OutputsView<W>,
    builds: Seq<ExtensionQueryBuild<Q, W>>,
)
    ensures
        collected(before, builds).warmups == before.warmups + builds.filter(
            |build: ExtensionQueryBuild<Q, W>| build.warmup is Some,
        ).map_values(|build: ExtensionQueryBuild<Q, W>| build.warmup->0),
        collected(before, builds).required_terms == before.required_terms + builds.map_values(
            |build: ExtensionQueryBuild<Q, W>| build.required_terms@,
        ).flatten(),
    decreases builds.len(),
{
    let has_warmup = |build: ExtensionQueryBuild<Q, W>| build.warmup is Some;
    let warmup = |build: ExtensionQueryBuild<Q, W>| build.warmup->0;
    let terms = |build: ExtensionQueryBuild<Q, W>| build.required_terms@;
    reveal(Seq::filter);
    if builds.len() == 0 {
        assert(builds.filter(has_warmup).map_values(warmup) == Seq::<Arc<W>>::empty());
        assert(builds.map_values(terms).flatten() == Seq::<Term>::empty());
    } else {
        let front = builds.drop_last();
        let last = builds.last();
        law_outputs_are_collected_in_order(before, front);
        if last.warmup is Some {
            assert(builds.filter(has_warmup) == front.filter(has_warmup).push(last));
            assert(builds.filter(has_warmup).map_values(warmup) == front.filter(
                has_warmup,
            ).map_values(warmup).push(last.warmup->0));
        }
        assert(builds.map_values(terms) == front.map_values(terms).push(last.required_terms@));
        front.map_values(terms).lemma_flatten_push(last.required_terms@);
    }
}

/// Outputs are handed out once: what was taken is gone, and taking the warmups leaves the
/// terms as they were, and the other way round.
pub proof fn law_outputs_are_handed_out_once<W: ?Sized>(outputs: OutputsView<W>)
    ensures
        outputs.without_warmups().warmups.len() == 0,
        outputs.without_warmups().required_terms == outputs.required_terms,
        outputs.without_required_terms().required_terms.len() == 0,
        outputs.without_required_terms().warmups == outputs.warmups,
        outputs.without_warmups().without_required_terms() == OutputsView::<W>::empty(),
        outputs.without_required_terms().without_warmups() == OutputsView::<W>::empty(),
{
}

/// What comes of a build is settled by its outcome: the query or the message, and the side
/// outputs.
pub proof fn law_outcome_settles_the_query<Q, W: ?Sized>(
    kind: Seq<char>,
    built: Result<ExtensionQueryBuild<Q, W>, String>,
    before: OutputsView<W>,
    after: OutputsView<W>,
    result: Result<TantivyQueryAst<Q>, InvalidQuery>,
    other_after: OutputsView<W>,
    other_result: Result<TantivyQueryAst<Q>, InvalidQuery>,
)
    requires
        settles(kind, built, before, after, result),
        settles(kind, built, before, other_after, other_result),
    ensures
        after == other_after,
        result is Ok <==> other_result is Ok,
        result is Ok ==> result == other_result,
        result is Err ==> result->Err_0.message() == other_result->Err_0.message(),
{
}

/// A refused query adds no side output, and a query that is built adds its own.
pub proof fn law_only_built_queries_add_outputs<Q, W: ?Sized>(
    kind: Seq<char>,
    built: Result<ExtensionQueryBuild<Q, W>, String>,
    before: OutputsView<W>,
    after: OutputsView<W>,
    result: Result<TantivyQueryAst<Q>, InvalidQuery>,
)
    requires
        settles(kind, built, before, after, result),
    ensures
        result is Ok <==> built is Ok,
        result is Err ==> after == before,
        built matches Ok(build) ==> after == before.and(build),
{
}

} // verus!
