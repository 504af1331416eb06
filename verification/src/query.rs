use std::sync::Arc;

use serde_json::Value as JsonValue;
use tantivy::schema::Schema;
use tantivy::Term;
use vstd::hash_map::StringHashMap;
use vstd::prelude::*;
use vstd::string::*;

use crate::decimal::append_decimal;

verus! {

/// A query type implemented by the application, reachable as
/// `{"type": "extension", "kind": <kind>, "payload": ...}` in a query AST.
///
/// The contracts of this trait are what its implementations owe; the application's code is
/// not checked against them. Its `spec` members are left open: each is some function of the
/// implementation and the arguments, which verified code may spell out.
pub trait QueryExtension: Send + Sync + 'static {
    /// The application's executable queries, `Box<dyn tantivy::query::Query>` in a searcher.
    type Query;

    /// The application's warmups: asynchronous per-split preparations of a query.
    type Warmup: ?Sized;

    /// The name under which this extension is found. It never changes.
    open spec fn answers_to(&self) -> Seq<char> {
        arbitrary::<spec_fn(&Self) -> Seq<char>>()(self)
    }

    /// Whether `built` is an outcome that building `payload` against `schema` can have.
    /// It stands for whatever the application's code does and promises nothing of it.
    open spec fn may_build(
        &self,
        payload: JsonValue,
        schema: Schema,
        built: Result<ExtensionQueryBuild<Self::Query, Self::Warmup>, String>,
    ) -> bool {
        arbitrary::<spec_fn(
            &Self,
            JsonValue,
            Schema,
            Result<ExtensionQueryBuild<Self::Query, Self::Warmup>, String>,
        ) -> bool>()(self, payload, schema, built)
    }

    /// The `kind` this extension answers to.
    fn kind(&self) -> (kind: &str)
        ensures
            kind@ == self.answers_to(),
    ;

    /// Build the tantivy query for `payload` against a split's schema.
    ///
    /// The query's `Query::query_terms` is honored like any tantivy query's: every term it
    /// reports is warmed (with positions when requested) before the query runs. Anything
    /// else the query needs to read must be fetched by the returned warmup, because tantivy
    /// queries execute synchronously on data that is already local.
    fn build(&self, payload: &JsonValue, schema: &Schema) -> (built: Result<
        ExtensionQueryBuild<Self::Query, Self::Warmup>,
        String,
    >)
        ensures
            self.may_build(*payload, *schema, built),
    ;
}

/// What [`QueryExtension::build`] produces for one split.
pub struct ExtensionQueryBuild<Q, W: ?Sized> {
    pub query: Q,
    /// Asynchronous preparation run after the index's own warmup (so the terms reported by
    /// the query's `query_terms` are already local) and before the query executes.
    pub warmup: Option<Arc<W>>,
    /// Terms that every matching document contains. A split in which one of them is absent
    /// can be skipped without running the warmup or the query.
    pub required_terms: Vec<Term>,
}

/// Warmups collected while building one split's query. Handed from the query builder to the
/// split's leaf search.
pub struct ExtensionWarmups<W: ?Sized>(pub Vec<Arc<W>>);

impl<W: ?Sized> View for ExtensionWarmups<W> {
    type V = Seq<Arc<W>>;

    open spec fn view(&self) -> Seq<Arc<W>> {
        self.0@
    }
}

impl<W: ?Sized> Default for ExtensionWarmups<W> {
    fn default() -> (warmups: Self)
        ensures
            warmups@ == Seq::<Arc<W>>::empty(),
    {
        ExtensionWarmups(Vec::new())
    }
}

impl<W: ?Sized> ExtensionWarmups<W> {
    /// How the list reads in a log: its length alone, since a warmup has no text.
    pub fn debug_text(&self) -> (text: String)
        ensures
            text@ == "ExtensionWarmups("@ + crate::decimal::decimal(self@.len()) + ")"@,
    {
        let mut text = "ExtensionWarmups(".to_owned();
        append_decimal(&mut text, self.0.len());
        text.append(")");
        text
    }
}

impl<W: ?Sized> Clone for ExtensionWarmups<W> {
    fn clone(&self) -> (copy: Self)
        ensures
            copy@ == self@,
    {
        let mut shared: Vec<Arc<W>> = Vec::new();
        for i in 0..self.0.len()
            invariant
                shared@ == self@.take(i as int),
        {
            shared.push(self.0[i].clone());
            assert(self@.take(i + 1) == self@.take(i as int).push(self@[i as int]));
        }
        assert(self@.take(self@.len() as int) == self@);
        ExtensionWarmups(shared)
    }
}

/// `Arc::ptr_eq`: whether two pointers share one allocation. Then what they point to is one
/// and the same value. Of two allocations nothing is said: they may hold equal values.
#[verifier::external_body]
fn same_allocation<W: ?Sized>(left: &Arc<W>, right: &Arc<W>) -> (same: bool)
    ensures
        same ==> *left == *right,
{
    Arc::ptr_eq(left, right)
}

/// Whether `same` is an answer that [`Arc::ptr_eq`] can give for two pointers. Where two
/// values lie is no function of the values, so both answers can be open.
pub closed spec fn may_share<W: ?Sized>(left: Arc<W>, right: Arc<W>, same: bool) -> bool {
    call_ensures(same_allocation::<W>, (&left, &right), same)
}

/// Warmups that share an allocation are one warmup.
pub proof fn law_shared_warmups_are_one<W: ?Sized>(left: Arc<W>, right: Arc<W>)
    requires
        may_share(left, right, true),
    ensures
        left == right,
{
}

/// Whether `equal` is what comes of comparing two lists position by position, where `may`
/// says which answers can be given for two warmups: lists are equal if they have one length
/// and at each position the warmups were found to be the same.
pub open spec fn compared<W: ?Sized>(
    left: Seq<Arc<W>>,
    right: Seq<Arc<W>>,
    may: spec_fn(Arc<W>, Arc<W>, bool) -> bool,
    equal: bool,
) -> bool {
    if equal {
        &&& left.len() == right.len()
        &&& forall|i: int| 0 <= i < left.len() ==> may(#[trigger] left[i], right[i], true)
    } else {
        ||| left.len() != right.len()
        ||| exists|i: int| 0 <= i < left.len() && may(#[trigger] left[i], right[i], false)
    }
}

/// Comparing lists is an equivalence wherever warmups are told apart by one mark each: a list
/// is equal to itself and to its clone, the order of the two lists does not matter, and two
/// lists that are equal to a third one are equal to each other. `equal_by` compares by the
/// answers of its closure, `==` by those of [`may_share`].
pub proof fn law_list_equality_is_an_equivalence<W: ?Sized>(
    x: Seq<Arc<W>>,
    y: Seq<Arc<W>>,
    z: Seq<Arc<W>>,
    clone: Seq<Arc<W>>,
    may: spec_fn(Arc<W>, Arc<W>, bool) -> bool,
    mark: spec_fn(Arc<W>) -> int,
)
    requires
        forall|left: Arc<W>, right: Arc<W>, answer: bool| #[trigger]
            may(left, right, answer) ==> answer == (mark(left) == mark(right)),
        clone == x,
    ensures
        forall|xx: bool| compared(x, x, may, xx) ==> xx,
        forall|xc: bool| compared(x, clone, may, xc) ==> xc,
        forall|xy: bool, yx: bool|
            compared(x, y, may, xy) && compared(y, x, may, yx) ==> xy == yx,
        forall|xy: bool, yz: bool, xz: bool|
            compared(x, y, may, xy) && compared(y, z, may, yz) && compared(x, z, may, xz)
                ==> (xy && yz ==> xz),
{
    lemma_compared_by_mark(x, x, may, mark);
    lemma_compared_by_mark(x, y, may, mark);
    lemma_compared_by_mark(y, x, may, mark);
    lemma_compared_by_mark(y, z, may, mark);
    lemma_compared_by_mark(x, z, may, mark);
}

/// Where warmups are told apart by one mark each, lists are equal if their marks are.
proof fn lemma_compared_by_mark<W: ?Sized>(
    left: Seq<Arc<W>>,
    right: Seq<Arc<W>>,
    may: spec_fn(Arc<W>, Arc<W>, bool) -> bool,
    mark: spec_fn(Arc<W>) -> int,
)
    requires
        forall|left: Arc<W>, right: Arc<W>, answer: bool| #[trigger]
            may(left, right, answer) ==> answer == (mark(left) == mark(right)),
    ensures
        forall|equal: bool| #[trigger]
            compared(left, right, may, equal) ==> equal == (left.map_values(mark)
                == right.map_values(mark)),
{
    assert forall|equal: bool| #[trigger] compared(left, right, may, equal) implies equal == (
    left.map_values(mark) == right.map_values(mark)) by {
        if equal {
            assert(left.map_values(mark) =~= right.map_values(mark));
        } else if left.len() == right.len() {
            let i = choose|i: int|
                0 <= i < left.len() && may(#[trigger] left[i], right[i], false);
            assert(left.map_values(mark)[i] != right.map_values(mark)[i]);
        } else {
            assert(left.map_values(mark).len() != right.map_values(mark).len());
        }
    }
}

impl<W: ?Sized> ExtensionWarmups<W> {
    /// Whether the two lists have one length and `same` finds the warmups at each position
    /// to be the same.
    pub fn equal_by<F: Fn(&Arc<W>, &Arc<W>) -> bool>(&self, other: &Self, same: F) -> (equal: bool)
        requires
            forall|i: int|
                0 <= i < self@.len() && i < other@.len() ==> call_requires(
                    same,
                    (&#[trigger] self@[i], &other@[i]),
                ),
        ensures
            compared(
                self@,
                other@,
                |left: Arc<W>, right: Arc<W>, answer: bool|
                    call_ensures(same, (&left, &right), answer),
                equal,
            ),
            equal ==> self@.len() == other@.len() && forall|i: int|
                0 <= i < self@.len() ==> call_ensures(
                    same,
                    (&#[trigger] self@[i], &other@[i]),
                    true,
                ),
            !equal ==> self@.len() != other@.len() || exists|i: int|
                0 <= i < self@.len() && call_ensures(
                    same,
                    (&#[trigger] self@[i], &other@[i]),
                    false,
                ),
    {
        if self.0.len() != other.0.len() {
            return false;
        }
        for i in 0..self.0.len()
            invariant
                self@.len() == other@.len(),
                forall|j: int|
                    0 <= j < self@.len() && j < other@.len() ==> call_requires(
                        same,
                        (&#[trigger] self@[j], &other@[j]),
                    ),
                forall|j: int|
                    0 <= j < i ==> call_ensures(same, (&#[trigger] self@[j], &other@[j]), true),
        {
            assert(call_requires(same, (&self@[i as int], &other@[i as int])));
            if !same(&self.0[i], &other.0[i]) {
                return false;
            }
        }
        true
    }
}

impl<W: ?Sized> PartialEq for ExtensionWarmups<W> {
    /// Two lists are equal if they have one length and share each warmup.
    fn eq(&self, other: &Self) -> (equal: bool)
        ensures
            equal ==> self@ == other@,
            compared(
                self@,
                other@,
                |left: Arc<W>, right: Arc<W>, answer: bool| may_share(left, right, answer),
                equal,
            ),
            equal ==> self@.len() == other@.len() && forall|i: int|
                0 <= i < self@.len() ==> may_share(#[trigger] self@[i], other@[i], true),
            !equal ==> self@.len() != other@.len() || exists|i: int|
                0 <= i < self@.len() && may_share(#[trigger] self@[i], other@[i], false),
    {
        self.equal_by(other, same_allocation)
    }
}

/// Which warmups share an allocation is no function of their values, so there is no such
/// function that `==` computes: of its result only the clauses of `eq` are known.
impl<W: ?Sized> vstd::std_specs::cmp::PartialEqSpecImpl for ExtensionWarmups<W> {
    open spec fn obeys_eq_spec() -> bool {
        false
    }

    open spec fn eq_spec(&self, other: &Self) -> bool {
        self@ == other@
    }
}

impl<W: ?Sized> Eq for ExtensionWarmups<W> {

}

/// `==` follows the pointer comparison, for lists of any length. It says "equal" only where
/// [`Arc::ptr_eq`] said so at every position, and it says "not equal" of two lists of one
/// length only where [`Arc::ptr_eq`] itself denied that the two warmups at some position
/// share an allocation. So where the comparison cannot deny it at any position, the answer is
/// "equal".
proof fn law_equality_follows_the_pointer_comparison<W: ?Sized>(
    x: ExtensionWarmups<W>,
    y: ExtensionWarmups<W>,
    equal: bool,
)
    requires
        call_ensures(<ExtensionWarmups<W> as PartialEq>::eq, (&x, &y), equal),
    ensures
        equal ==> x@.len() == y@.len() && forall|i: int|
            0 <= i < x@.len() ==> call_ensures(
                same_allocation::<W>,
                (&#[trigger] x@[i], &y@[i]),
                true,
            ),
        !equal ==> x@.len() != y@.len() || exists|i: int|
            0 <= i < x@.len() && call_ensures(
                same_allocation::<W>,
                (&#[trigger] x@[i], &y@[i]),
                false,
            ),
        x@.len() == y@.len() && (forall|i: int|
            0 <= i < x@.len() ==> !call_ensures(
                same_allocation::<W>,
                (&#[trigger] x@[i], &y@[i]),
                false,
            )) ==> equal,
{
}

/// The answers of [`may_share`] are those of the pointer comparison, no more and no fewer.
proof fn law_answers_are_those_of_the_pointer_comparison<W: ?Sized>(
    left: Arc<W>,
    right: Arc<W>,
    same: bool,
)
    ensures
        may_share(left, right, same) == call_ensures(same_allocation::<W>, (&left, &right), same),
{
}

/// Lists of one length are equal unless some pair of their warmups can be told apart, and
/// equal lists hold the same warmups.
pub proof fn law_lists_are_equal_unless_a_pair_differs<W: ?Sized>(
    x: ExtensionWarmups<W>,
    y: ExtensionWarmups<W>,
    equal: bool,
)
    requires
        call_ensures(<ExtensionWarmups<W> as PartialEq>::eq, (&x, &y), equal),
    ensures
        x@.len() == y@.len() && (forall|i: int|
            0 <= i < x@.len() ==> !may_share(#[trigger] x@[i], y@[i], false)) ==> equal,
        equal ==> x@ == y@,
{
    law_equality_follows_the_pointer_comparison(x, y, equal);
}

/// For every identity of allocations by which the pointer comparison decides, in both
/// directions, `==` is equality of the lists' identities: lists are equal exactly if they
/// have one length and one identity at each position. A list is then equal to itself and to
/// its clone, however long it is.
pub proof fn law_equality_is_that_of_identities<W: ?Sized>(
    x: ExtensionWarmups<W>,
    y: ExtensionWarmups<W>,
    identity: spec_fn(Arc<W>) -> int,
    equal: bool,
)
    requires
        call_ensures(<ExtensionWarmups<W> as PartialEq>::eq, (&x, &y), equal),
        forall|left: Arc<W>, right: Arc<W>, same: bool| #[trigger]
            may_share(left, right, same) ==> same == (identity(left) == identity(right)),
    ensures
        equal == (x@.len() == y@.len() && forall|i: int|
            0 <= i < x@.len() ==> identity(#[trigger] x@[i]) == identity(y@[i])),
        x@ == y@ ==> equal,
{
    law_equality_follows_the_pointer_comparison(x, y, equal);
    if equal {
        assert forall|i: int| 0 <= i < x@.len() implies identity(#[trigger] x@[i]) == identity(
            y@[i],
        ) by {
            assert(may_share(x@[i], y@[i], true));
        }
    } else if x@.len() == y@.len() {
        let i = choose|i: int|
            0 <= i < x@.len() && call_ensures(
                same_allocation::<W>,
                (&#[trigger] x@[i], &y@[i]),
                false,
            );
        assert(may_share(x@[i], y@[i], false));
    }
}

/// A list of warmups is all that was put into it, in the order in which it was put.
pub proof fn law_a_list_is_all_of_its_warmups<W: ?Sized>(x: ExtensionWarmups<W>)
    ensures
        x@.len() == x.0@.len(),
        forall|i: int| 0 <= i < x.0@.len() ==> #[trigger] x@[i] == x.0@[i],
{
}

/// A clone holds the same warmups, at the same positions.
pub proof fn law_clone_holds_the_same_warmups<W: ?Sized>(
    x: ExtensionWarmups<W>,
    copy: ExtensionWarmups<W>,
)
    requires
        call_ensures(<ExtensionWarmups<W> as Clone>::clone, (&x,), copy),
    ensures
        copy@.len() == x@.len(),
        forall|i: int| 0 <= i < x@.len() ==> #[trigger] copy@[i] == x@[i],
{
}

/// The query extensions of a process, by `kind`.
#[verifier::reject_recursive_types(E)]
pub struct QueryExtensions<E: ?Sized> {
    by_kind: StringHashMap<Arc<E>>,
}

impl<E: ?Sized> View for QueryExtensions<E> {
    type V = Map<Seq<char>, Arc<E>>;

    closed spec fn view(&self) -> Map<Seq<char>, Arc<E>> {
        self.by_kind@
    }
}

impl<E: ?Sized> QueryExtensions<E> {
    /// A registry that holds no extension.
    pub fn new() -> (extensions: Self)
        ensures
            extensions@ == Map::<Seq<char>, Arc<E>>::empty(),
    {
        QueryExtensions { by_kind: StringHashMap::new() }
    }
}

/// Register a query extension under its `kind`, replacing any previous one with that kind.
/// Call before starting any searcher.
pub fn register_query_extension<E: QueryExtension + ?Sized>(
    extensions: &mut QueryExtensions<E>,
    extension: Arc<E>,
)
    ensures
        final(extensions)@ == with_extension(old(extensions)@, extension),
        final(extensions)@ == old(extensions)@.insert(extension.answers_to(), extension),
{
    let kind = extension.kind().to_owned();
    extensions.by_kind.insert(kind, extension);
}

/// The extension registered for `kind`.
pub fn query_extension<E: ?Sized>(extensions: &QueryExtensions<E>, kind: &str) -> (found: Option<
    Arc<E>,
>)
    ensures
        found == found_for(extensions@, kind@),
        found is Some <==> extensions@.contains_key(kind@),
        found matches Some(extension) ==> extension == extensions@[kind@],
{
    match extensions.by_kind.get(kind) {
        Some(extension) => Some(extension.clone()),
        None => None,
    }
}

/// What a registry answers for `kind`.
pub open spec fn found_for<E: ?Sized>(
    extensions: Map<Seq<char>, Arc<E>>,
    kind: Seq<char>,
) -> Option<Arc<E>> {
    if extensions.contains_key(kind) {
        Some(extensions[kind])
    } else {
        None
    }
}

/// A registry once `extension` is registered.
pub open spec fn with_extension<E: QueryExtension + ?Sized>(
    extensions: Map<Seq<char>, Arc<E>>,
    extension: Arc<E>,
) -> Map<Seq<char>, Arc<E>> {
    extensions.insert(extension.answers_to(), extension)
}

/// Every extension is found under the kind that it answers to, and under no other.
pub open spec fn filed_by_kind<E: QueryExtension + ?Sized>(
    extensions: Map<Seq<char>, Arc<E>>,
) -> bool {
    forall|kind: Seq<char>| #[trigger]
        extensions.contains_key(kind) ==> extensions[kind].answers_to() == kind
}

/// Something is found for a kind exactly if it is registered, and it is what is registered.
pub proof fn law_found_is_what_is_registered<E: ?Sized>(
    extensions: Map<Seq<char>, Arc<E>>,
    kind: Seq<char>,
)
    ensures
        extensions.contains_key(kind) ==> found_for(extensions, kind) == Some(extensions[kind]),
        !extensions.contains_key(kind) ==> found_for(extensions, kind) is None,
{
}

/// A registry that nothing was registered with answers for no kind.
pub proof fn law_empty_registry_finds_nothing<E: ?Sized>(kind: Seq<char>)
    ensures
        found_for(Map::<Seq<char>, Arc<E>>::empty(), kind) is None,
{
}

/// A registered extension is found under its kind, and what is found under any other kind
/// stays what it was.
pub proof fn law_registered_extension_is_found<E: QueryExtension + ?Sized>(
    extensions: Map<Seq<char>, Arc<E>>,
    extension: Arc<E>,
    other: Seq<char>,
)
    ensures
        found_for(with_extension(extensions, extension), extension.answers_to()) == Some(
            extension,
        ),
        other != extension.answers_to() ==> found_for(
            with_extension(extensions, extension),
            other,
        ) == found_for(extensions, other),
{
}

/// Of two extensions with one kind the second replaces the first: it is as if the first had
/// never been registered.
pub proof fn law_same_kind_replaces<E: QueryExtension + ?Sized>(
    extensions: Map<Seq<char>, Arc<E>>,
    first: Arc<E>,
    second: Arc<E>,
)
    requires
        first.answers_to() == second.answers_to(),
    ensures
        with_extension(with_extension(extensions, first), second) == with_extension(
            extensions,
            second,
        ),
{
}

/// The order in which two extensions with different kinds are registered does not matter.
pub proof fn law_registration_order_is_immaterial<E: QueryExtension + ?Sized>(
    extensions: Map<Seq<char>, Arc<E>>,
    first: Arc<E>,
    second: Arc<E>,
)
    requires
        first.answers_to() != second.answers_to(),
    ensures
        with_extension(with_extension(extensions, first), second) == with_extension(
            with_extension(extensions, second),
            first,
        ),
{
}

/// What a registry finds for a kind answers to that kind: an empty registry has it so, and
/// registering keeps it so.
pub proof fn law_found_extension_answers_to_its_kind<E: QueryExtension + ?Sized>(
    extensions: Map<Seq<char>, Arc<E>>,
    extension: Arc<E>,
)
    ensures
        filed_by_kind(Map::<Seq<char>, Arc<E>>::empty()),
        filed_by_kind(extensions) ==> filed_by_kind(with_extension(extensions, extension)),
        forall|kind: Seq<char>|
            filed_by_kind(extensions) ==> (#[trigger] found_for(extensions, kind) matches Some(
                found,
            ) ==> found.answers_to() == kind),
{
}

} // verus!
