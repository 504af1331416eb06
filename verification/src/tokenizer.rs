use tantivy::tokenizer::TextAnalyzer;
use vstd::hash_map::StringHashMap;
use vstd::prelude::*;

verus! {

/// The tokenizers of a process, by name.
pub struct Tokenizers {
    by_name: StringHashMap<TextAnalyzer>,
    /// The names in use, each once.
    names: Vec<String>,
}

impl View for Tokenizers {
    type V = Map<Seq<char>, TextAnalyzer>;

    closed spec fn view(&self) -> Map<Seq<char>, TextAnalyzer> {
        self.by_name@
    }
}

impl Tokenizers {
    /// `names` lists the names of the map, each once.
    pub closed spec fn wf(&self) -> bool {
        &&& forall|i: int|
            0 <= i < self.names@.len() ==> self.by_name@.contains_key(
                (#[trigger] self.names@[i])@,
            )
        &&& forall|i: int, j: int|
            0 <= i < j < self.names@.len() ==> (#[trigger] self.names@[i])@ != (
            #[trigger] self.names@[j])@
        &&& forall|name: Seq<char>| #[trigger]
            self.by_name@.contains_key(name) ==> exists|i: int|
                0 <= i < self.names@.len() && (#[trigger] self.names@[i])@ == name
    }

    /// A registry that holds no tokenizer.
    pub fn new() -> (tokenizers: Self)
        ensures
            tokenizers.wf(),
            tokenizers@ == Map::<Seq<char>, TextAnalyzer>::empty(),
    {
        Tokenizers { by_name: StringHashMap::new(), names: Vec::new() }
    }
}

/// A registry once `analyzer` is registered under `name`.
pub open spec fn with_tokenizer(
    tokenizers: Map<Seq<char>, TextAnalyzer>,
    name: Seq<char>,
    analyzer: TextAnalyzer,
) -> Map<Seq<char>, TextAnalyzer> {
    tokenizers.insert(name, analyzer)
}

/// Register a Tantivy tokenizer under `name`, replacing any previous one with that name.
///
/// Call before building any doc mapper: indexer, merge executor and searcher all build one
/// from the default tokenizer manager, which takes in every name registered here. `name`
/// must not collide with the name of a built-in tokenizer; a collision is dropped when that
/// manager is built, not here, since this registry does not know the built-in names.
pub fn register_tokenizer(tokenizers: &mut Tokenizers, name: &str, analyzer: TextAnalyzer)
    requires
        old(tokenizers).wf(),
    ensures
        final(tokenizers).wf(),
        final(tokenizers)@ == with_tokenizer(old(tokenizers)@, name@, analyzer),
        final(tokenizers)@ == old(tokenizers)@.insert(name@, analyzer),
{
    if !tokenizers.by_name.contains_key(name) {
        tokenizers.names.push(name.to_owned());
    }
    tokenizers.by_name.insert(name.to_owned(), analyzer);
    proof {
        let before = old(tokenizers).names@;
        let after = tokenizers.names@;
        assert forall|key: Seq<char>| #[trigger]
            tokenizers.by_name@.contains_key(key) implies exists|i: int|
            0 <= i < after.len() && (#[trigger] after[i])@ == key by {
            if key == name@ && !old(tokenizers).by_name@.contains_key(name@) {
                assert(after[after.len() - 1]@ == key);
            } else {
                assert(old(tokenizers).by_name@.contains_key(key));
                let i = choose|i: int| 0 <= i < before.len() && (#[trigger] before[i])@ == key;
                assert(after[i]@ == key);
            }
        }
    }
}

/// A copy of a value, as its type's `Clone` makes it.
fn copy_of<T: Clone>(value: &T) -> (copy: T)
    ensures
        cloned(*value, copy),
{
    value.clone()
}

/// Whether `listed` names each registered tokenizer once, with a copy of it, and nothing
/// else.
pub open spec fn lists(
    listed: Seq<(String, TextAnalyzer)>,
    tokenizers: Map<Seq<char>, TextAnalyzer>,
) -> bool {
    &&& forall|i: int|
        0 <= i < listed.len() ==> tokenizers.contains_key((#[trigger] listed[i]).0@) && cloned(
            tokenizers[listed[i].0@],
            listed[i].1,
        )
    &&& forall|i: int, j: int|
        0 <= i < j < listed.len() ==> (#[trigger] listed[i]).0@ != (#[trigger] listed[j]).0@
    &&& forall|name: Seq<char>| #[trigger]
        tokenizers.contains_key(name) ==> exists|i: int|
            0 <= i < listed.len() && (#[trigger] listed[i]).0@ == name
}

/// Every tokenizer registered through [`register_tokenizer`], in no particular order.
pub fn registered_tokenizers(tokenizers: &Tokenizers) -> (listed: Vec<(String, TextAnalyzer)>)
    requires
        tokenizers.wf(),
    ensures
        lists(listed@, tokenizers@),
        forall|i: int|
            0 <= i < listed@.len() ==> tokenizers@.contains_key((#[trigger] listed@[i]).0@)
                && cloned(tokenizers@[listed@[i].0@], listed@[i].1),
        forall|i: int, j: int|
            0 <= i < j < listed@.len() ==> (#[trigger] listed@[i]).0@ != (
            #[trigger] listed@[j]).0@,
        forall|name: Seq<char>| #[trigger]
            tokenizers@.contains_key(name) ==> exists|i: int|
                0 <= i < listed@.len() && (#[trigger] listed@[i]).0@ == name,
{
    let mut listed: Vec<(String, TextAnalyzer)> = Vec::new();
    for i in 0..tokenizers.names.len()
        invariant
            tokenizers.wf(),
            listed@.len() == i,
            forall|j: int| 0 <= j < i ==> (#[trigger] listed@[j]).0@ == tokenizers.names@[j]@,
            forall|j: int|
                0 <= j < i ==> cloned(
                    tokenizers@[(#[trigger] listed@[j]).0@],
                    listed@[j].1,
                ),
    {
        let name = &tokenizers.names[i];
        if let Some(analyzer) = tokenizers.by_name.get(name.as_str()) {
            listed.push((name.clone(), copy_of(analyzer)));
        }
    }
    proof {
        assert forall|name: Seq<char>| #[trigger]
            tokenizers@.contains_key(name) implies exists|i: int|
            0 <= i < listed@.len() && (#[trigger] listed@[i]).0@ == name by {
            let i = choose|i: int|
                0 <= i < tokenizers.names@.len() && (#[trigger] tokenizers.names@[i])@ == name;
            assert(listed@[i].0@ == name);
        }
    }
    listed
}

/// A registry that nothing was registered with lists nothing.
pub proof fn law_empty_registry_lists_nothing(listed: Seq<(String, TextAnalyzer)>)
    requires
        lists(listed, Map::<Seq<char>, TextAnalyzer>::empty()),
    ensures
        listed.len() == 0,
{
    if listed.len() > 0 {
        assert(Map::<Seq<char>, TextAnalyzer>::empty().contains_key(listed[0].0@));
    }
}

/// A registered tokenizer is listed under its name, once and in place of any that had the
/// name before; one under another name is listed as long as it was registered before.
pub proof fn law_registered_tokenizer_is_listed(
    tokenizers: Map<Seq<char>, TextAnalyzer>,
    name: Seq<char>,
    analyzer: TextAnalyzer,
    listed: Seq<(String, TextAnalyzer)>,
)
    requires
        lists(listed, with_tokenizer(tokenizers, name, analyzer)),
    ensures
        exists|i: int| 0 <= i < listed.len() && (#[trigger] listed[i]).0@ == name,
        forall|i: int, j: int|
            0 <= i < j < listed.len() ==> (#[trigger] listed[i]).0@ != (#[trigger] listed[j]).0@,
        forall|i: int|
            0 <= i < listed.len() && (#[trigger] listed[i]).0@ == name ==> cloned(
                analyzer,
                listed[i].1,
            ),
        forall|i: int|
            0 <= i < listed.len() && (#[trigger] listed[i]).0@ != name ==> tokenizers.contains_key(
                listed[i].0@,
            ) && cloned(tokenizers[listed[i].0@], listed[i].1),
        forall|other: Seq<char>| #[trigger]
            tokenizers.contains_key(other) ==> exists|i: int|
                0 <= i < listed.len() && (#[trigger] listed[i]).0@ == other,
{
    let after = with_tokenizer(tokenizers, name, analyzer);
    assert(after.contains_key(name));
    assert forall|other: Seq<char>| #[trigger] tokenizers.contains_key(other) implies exists|
        i: int,
    |
        0 <= i < listed.len() && (#[trigger] listed[i]).0@ == other by {
        assert(after.contains_key(other));
    }
}

/// Of two tokenizers with one name the second replaces the first: it is as if the first had
/// never been registered.
pub proof fn law_same_name_replaces(
    tokenizers: Map<Seq<char>, TextAnalyzer>,
    name: Seq<char>,
    first: TextAnalyzer,
    second: TextAnalyzer,
)
    ensures
        with_tokenizer(with_tokenizer(tokenizers, name, first), name, second) == with_tokenizer(
            tokenizers,
            name,
            second,
        ),
{
}

/// The order in which two tokenizers with different names are registered does not matter.
pub proof fn law_registration_order_is_immaterial(
    tokenizers: Map<Seq<char>, TextAnalyzer>,
    first_name: Seq<char>,
    first: TextAnalyzer,
    second_name: Seq<char>,
    second: TextAnalyzer,
)
    requires
        first_name != second_name,
    ensures
        with_tokenizer(with_tokenizer(tokenizers, first_name, first), second_name, second)
            == with_tokenizer(
            with_tokenizer(tokenizers, second_name, second),
            first_name,
            first,
        ),
{
}

} // verus!
