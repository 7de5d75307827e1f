use vstd::prelude::*;

use crate::error::{AccountError, ComponentPackageError, ErrorModel};
use crate::sequences::{first_repeat, lemma_first_repeat_prefix};
use crate::word::{resolve_word, result_model, TemplateValues, Word, WordRepresentation};

verus! {

/// One concrete storage slot of an instantiated component.
#[derive(Clone, Debug, PartialEq, Eq)]
pub enum StorageSlot {
    Value(Word),
    /// A map slot, holding its key/value pairs in declaration order.
    StorageMap(Vec<(Word, Word)>),
}

/// The mathematical value of a [`StorageSlot`].
pub enum SlotModel {
    Value(Word),
    StorageMap(Seq<(Word, Word)>),
}

impl View for StorageSlot {
    type V = SlotModel;

    open spec fn view(&self) -> SlotModel {
        match self {
            StorageSlot::Value(w) => SlotModel::Value(*w),
            StorageSlot::StorageMap(m) => SlotModel::StorageMap(m@),
        }
    }
}

/// The models of a sequence of slots.
pub open spec fn slots_model(s: Seq<StorageSlot>) -> Seq<SlotModel> {
    s.map_values(|x: StorageSlot| x@)
}

/// A result carrying slots, replaced by its mathematical value.
pub open spec fn slots_result_model(r: Result<Vec<StorageSlot>, ComponentPackageError>) -> Result<Seq<SlotModel>, ErrorModel> {
    match r {
        Ok(v) => Ok(slots_model(v@)),
        Err(e) => Err(e@),
    }
}

/// One initial entry of a map-typed storage declaration.
#[derive(Clone, Debug, PartialEq, Eq)]
pub struct MapEntry {
    pub key: Word,
    pub value: WordRepresentation,
}

/// One storage declaration, occupying one or more slots.
#[derive(Clone, Debug, PartialEq, Eq)]
pub enum StorageEntry {
    /// A single slot holding one word.
    Value { name: String, description: Option<String>, slot: u8, value: WordRepresentation },
    /// Several slots; the `i`-th slot holds the `i`-th value.
    MultiSlot {
        name: String,
        description: Option<String>,
        slots: Vec<u8>,
        values: Vec<WordRepresentation>,
    },
    /// A single slot holding a map built from the initial entries.
    StorageMap { name: String, description: Option<String>, slot: u8, map: Vec<MapEntry> },
}

/// The value slots that `reps` resolve to, in order; the first failure otherwise.
pub open spec fn resolve_values(reps: Seq<WordRepresentation>, values: TemplateValues) -> Result<Seq<SlotModel>, ErrorModel>
    decreases reps.len(),
{
    if reps.len() == 0 {
        Ok(Seq::empty())
    } else {
        match resolve_values(reps.drop_last(), values) {
            Err(e) => Err(e),
            Ok(slots) => match resolve_word(reps.last(), values) {
                Err(e) => Err(e),
                Ok(w) => Ok(slots.push(SlotModel::Value(w))),
            },
        }
    }
}

/// The key/value pairs that `entries` resolve to, in order; the first failure otherwise.
pub open spec fn resolve_pairs(entries: Seq<MapEntry>, values: TemplateValues) -> Result<Seq<(Word, Word)>, ErrorModel>
    decreases entries.len(),
{
    if entries.len() == 0 {
        Ok(Seq::empty())
    } else {
        match resolve_pairs(entries.drop_last(), values) {
            Err(e) => Err(e),
            Ok(pairs) => match resolve_word(entries.last().value, values) {
                Err(e) => Err(e),
                Ok(w) => Ok(pairs.push((entries.last().key, w))),
            },
        }
    }
}

/// The keys of a sequence of pairs.
pub open spec fn pair_keys(pairs: Seq<(Word, Word)>) -> Seq<Word> {
    pairs.map_values(|p: (Word, Word)| p.0)
}

/// The map slot built from resolved pairs: refused where a key repeats.
pub open spec fn map_slot(pairs: Seq<(Word, Word)>) -> Result<Seq<SlotModel>, ErrorModel> {
    match first_repeat(pair_keys(pairs)) {
        Some(k) => Err(ErrorModel::StorageMapError(AccountError::DuplicateStorageMapKey(k))),
        None => Ok(seq![SlotModel::StorageMap(pairs)]),
    }
}

proof fn lemma_resolve_values_prefix(reps: Seq<WordRepresentation>, values: TemplateValues, i: int)
    requires
        0 <= i <= reps.len(),
        resolve_values(reps.take(i), values) is Err,
    ensures
        resolve_values(reps, values) == resolve_values(reps.take(i), values),
    decreases reps.len() - i,
{
    if i == reps.len() {
        assert(reps.take(i) =~= reps);
    } else {
        assert(reps.take(i + 1).drop_last() =~= reps.take(i));
        lemma_resolve_values_prefix(reps, values, i + 1);
    }
}

proof fn lemma_resolve_pairs_prefix(entries: Seq<MapEntry>, values: TemplateValues, i: int)
    requires
        0 <= i <= entries.len(),
        resolve_pairs(entries.take(i), values) is Err,
    ensures
        resolve_pairs(entries, values) == resolve_pairs(entries.take(i), values),
    decreases entries.len() - i,
{
    if i == entries.len() {
        assert(entries.take(i) =~= entries);
    } else {
        assert(entries.take(i + 1).drop_last() =~= entries.take(i));
        lemma_resolve_pairs_prefix(entries, values, i + 1);
    }
}

/// The views of a sequence of strings.
pub open spec fn key_views(s: Seq<String>) -> Seq<Seq<char>> {
    s.map_values(|k: String| k@)
}

/// The placeholder keys among `reps`, in order.
pub open spec fn rep_keys(reps: Seq<WordRepresentation>) -> Seq<Seq<char>>
    decreases reps.len(),
{
    if reps.len() == 0 {
        Seq::empty()
    } else {
        rep_keys(reps.drop_last()) + match reps.last() {
            WordRepresentation::Template(k) => seq![k@],
            _ => Seq::empty(),
        }
    }
}

/// The declared values of a map's initial entries.
pub open spec fn map_values_of(map: Seq<MapEntry>) -> Seq<WordRepresentation> {
    map.map_values(|e: MapEntry| e.value)
}

/// Appends the placeholder key of `rep`, if it has one.
fn push_key(rep: &WordRepresentation, out: &mut Vec<String>)
    ensures
        key_views(final(out)@) == key_views(old(out)@) + match *rep {
            WordRepresentation::Template(k) => seq![k@],
            _ => Seq::empty(),
        },
{
    let ghost before = out@;
    match rep {
        WordRepresentation::Template(k) => {
            out.push(k.clone());
            proof {
                assert(key_views(out@) =~= key_views(before) + seq![k@]);
            }
        },
        _ => {
            proof {
                assert(key_views(out@) =~= key_views(before) + Seq::<Seq<char>>::empty());
            }
        },
    }
}

impl StorageEntry {
    /// The placeholder keys this entry's values name, in declaration order.
    pub open spec fn spec_template_keys(&self) -> Seq<Seq<char>> {
        match self {
            StorageEntry::Value { value, .. } => rep_keys(seq![*value]),
            StorageEntry::MultiSlot { values, .. } => rep_keys(values@),
            StorageEntry::StorageMap { map, .. } => rep_keys(map_values_of(map@)),
        }
    }

    /// The placeholder keys this entry's values name, in declaration order.
    pub fn template_keys(&self) -> (r: Vec<String>)
        ensures
            key_views(r@) == self.spec_template_keys(),
    {
        let mut out: Vec<String> = Vec::new();
        match self {
            StorageEntry::Value { value, .. } => {
                proof {
                    assert(key_views(out@) =~= Seq::<Seq<char>>::empty());
                }
                push_key(value, &mut out);
                proof {
                    assert(seq![*value].drop_last() =~= Seq::<WordRepresentation>::empty());
                    assert(rep_keys(Seq::<WordRepresentation>::empty()) =~= Seq::<Seq<char>>::empty());
                    assert(seq![*value].last() == *value);
                    assert(key_views(out@) =~= rep_keys(seq![*value]));
                }
            },
            StorageEntry::MultiSlot { values, .. } => {
                let mut i: usize = 0;
                proof {
                    assert(values@.take(0) =~= Seq::<WordRepresentation>::empty());
                    assert(key_views(out@) =~= Seq::<Seq<char>>::empty());
                }
                while i < values.len()
                    invariant
                        i <= values@.len(),
                        key_views(out@) == rep_keys(values@.take(i as int)),
                    decreases values@.len() - i,
                {
                    push_key(&values[i], &mut out);
                    proof {
                        assert(values@.take(i + 1).drop_last() =~= values@.take(i as int));
                    }
                    i = i + 1;
                }
                proof {
                    assert(values@.take(i as int) =~= values@);
                }
            },
            StorageEntry::StorageMap { map, .. } => {
                let ghost reps = map_values_of(map@);
                let mut i: usize = 0;
                proof {
                    assert(reps.take(0) =~= Seq::<WordRepresentation>::empty());
                    assert(key_views(out@) =~= Seq::<Seq<char>>::empty());
                }
                while i < map.len()
                    invariant
                        i <= map@.len(),
                        reps == map_values_of(map@),
                        key_views(out@) == rep_keys(reps.take(i as int)),
                    decreases map@.len() - i,
                {
                    push_key(&map[i].value, &mut out);
                    proof {
                        assert(reps.take(i + 1).drop_last() =~= reps.take(i as int));
                    }
                    i = i + 1;
                }
                proof {
                    assert(reps.take(i as int) =~= reps);
                }
            },
        }
        out
    }

    /// The slot indices this entry occupies, in declaration order.
    pub open spec fn spec_slot_indices(&self) -> Seq<u8> {
        match self {
            StorageEntry::Value { slot, .. } => seq![*slot],
            StorageEntry::MultiSlot { slots, .. } => slots@,
            StorageEntry::StorageMap { slot, .. } => seq![*slot],
        }
    }

    /// The slots this entry becomes under `values`, or why it cannot.
    pub open spec fn spec_storage_slots(&self, values: TemplateValues) -> Result<Seq<SlotModel>, ErrorModel> {
        match self {
            StorageEntry::Value { value, .. } => match resolve_word(*value, values) {
                Err(e) => Err(e),
                Ok(w) => Ok(seq![SlotModel::Value(w)]),
            },
            StorageEntry::MultiSlot { slots, values: reps, .. } => if slots@.len() != reps@.len() {
                Err(ErrorModel::InvalidMultiSlotEntry)
            } else {
                resolve_values(reps@, values)
            },
            StorageEntry::StorageMap { map, .. } => match resolve_pairs(map@, values) {
                Err(e) => Err(e),
                Ok(pairs) => map_slot(pairs),
            },
        }
    }

    /// The entry's name.
    pub fn name(&self) -> (r: &String)
        ensures
            r == match self {
                StorageEntry::Value { name, .. } => name,
                StorageEntry::MultiSlot { name, .. } => name,
                StorageEntry::StorageMap { name, .. } => name,
            },
    {
        match self {
            StorageEntry::Value { name, .. } => name,
            StorageEntry::MultiSlot { name, .. } => name,
            StorageEntry::StorageMap { name, .. } => name,
        }
    }

    /// The slot indices this entry occupies, in declaration order.
    pub fn slot_indices(&self) -> (r: Vec<u8>)
        ensures
            r@ == self.spec_slot_indices(),
    {
        match self {
            StorageEntry::Value { slot, .. } => vec![*slot],
            StorageEntry::MultiSlot { slots, .. } => slots.clone(),
            StorageEntry::StorageMap { slot, .. } => vec![*slot],
        }
    }

    /// Resolves this entry's declared values into concrete storage slots.
    pub fn try_into_storage_slots(&self, values: &TemplateValues) -> (r: Result<Vec<StorageSlot>, ComponentPackageError>)
        ensures
            slots_result_model(r) == self.spec_storage_slots(*values),
    {
        match self {
            StorageEntry::Value { value, .. } => {
                let w = value.try_resolve(values)?;
                let out = vec![StorageSlot::Value(w)];
                proof {
                    assert(slots_model(out@) =~= seq![SlotModel::Value(w)]);
                }
                Ok(out)
            },
            StorageEntry::MultiSlot { slots, values: reps, .. } => {
                if slots.len() != reps.len() {
                    return Err(ComponentPackageError::InvalidMultiSlotEntry);
                }
                resolve_value_slots(reps, values)
            },
            StorageEntry::StorageMap { map, .. } => {
                let pairs = resolve_map_pairs(map, values)?;
                let dup = first_repeated_key(&pairs);
                match dup {
                    Some(k) => Err(
                        ComponentPackageError::StorageMapError(AccountError::DuplicateStorageMapKey(k)),
                    ),
                    None => {
                        let ghost model = pairs@;
                        let out = vec![StorageSlot::StorageMap(pairs)];
                        proof {
                            assert(slots_model(out@) =~= seq![SlotModel::StorageMap(model)]);
                        }
                        Ok(out)
                    },
                }
            },
        }
    }
}

fn resolve_value_slots(reps: &Vec<WordRepresentation>, values: &TemplateValues) -> (r: Result<Vec<StorageSlot>, ComponentPackageError>)
    ensures
        slots_result_model(r) == resolve_values(reps@, *values),
{
    let mut out: Vec<StorageSlot> = Vec::new();
    let mut i: usize = 0;
    proof {
        assert(slots_model(out@) =~= Seq::<SlotModel>::empty());
        assert(reps@.take(0) =~= Seq::<WordRepresentation>::empty());
    }
    while i < reps.len()
        invariant
            i <= reps@.len(),
            resolve_values(reps@.take(i as int), *values) == Ok::<Seq<SlotModel>, ErrorModel>(slots_model(out@)),
        decreases reps@.len() - i,
    {
        proof {
            assert(reps@.take(i + 1).drop_last() =~= reps@.take(i as int));
        }
        let res = reps[i].try_resolve(values);
        match res {
            Err(e) => {
                proof {
                    lemma_resolve_values_prefix(reps@, *values, i + 1);
                }
                return Err(e);
            },
            Ok(w) => {
                let ghost before = out@;
                out.push(StorageSlot::Value(w));
                proof {
                    assert(slots_model(out@) =~= slots_model(before).push(SlotModel::Value(w)));
                }
            },
        }
        i = i + 1;
    }
    proof {
        assert(reps@.take(i as int) =~= reps@);
    }
    Ok(out)
}

fn resolve_map_pairs(map: &Vec<MapEntry>, values: &TemplateValues) -> (r: Result<Vec<(Word, Word)>, ComponentPackageError>)
    ensures
        match r {
            Ok(v) => resolve_pairs(map@, *values) == Ok::<Seq<(Word, Word)>, ErrorModel>(v@),
            Err(e) => resolve_pairs(map@, *values) == Err::<Seq<(Word, Word)>, ErrorModel>(e@),
        },
{
    let mut out: Vec<(Word, Word)> = Vec::new();
    let mut i: usize = 0;
    proof {
        assert(map@.take(0) =~= Seq::<MapEntry>::empty());
    }
    while i < map.len()
        invariant
            i <= map@.len(),
            resolve_pairs(map@.take(i as int), *values) == Ok::<Seq<(Word, Word)>, ErrorModel>(out@),
        decreases map@.len() - i,
    {
        proof {
            assert(map@.take(i + 1).drop_last() =~= map@.take(i as int));
        }
        let res = map[i].value.try_resolve(values);
        match res {
            Err(e) => {
                proof {
                    lemma_resolve_pairs_prefix(map@, *values, i + 1);
                }
                return Err(e);
            },
            Ok(w) => {
                out.push((map[i].key, w));
            },
        }
        i = i + 1;
    }
    proof {
        assert(map@.take(i as int) =~= map@);
    }
    Ok(out)
}

/// The first key that repeats an earlier key among `pairs`.
fn first_repeated_key(pairs: &Vec<(Word, Word)>) -> (r: Option<Word>)
    ensures
        r == first_repeat(pair_keys(pairs@)),
{
    let ghost keys = pair_keys(pairs@);
    let mut i: usize = 0;
    proof {
        assert(keys.take(0) =~= Seq::<Word>::empty());
    }
    while i < pairs.len()
        invariant
            i <= pairs@.len(),
            keys == pair_keys(pairs@),
            first_repeat(keys.take(i as int)) is None,
        decreases pairs@.len() - i,
    {
        let key = pairs[i].0;
        proof {
            assert(keys.take(i + 1).drop_last() =~= keys.take(i as int));
            assert(keys.take(i + 1).last() == key);
        }
        let mut j: usize = 0;
        while j < i
            invariant
                j <= i < pairs@.len(),
                keys == pair_keys(pairs@),
                key == keys[i as int],
                first_repeat(keys.take(i as int)) is None,
                keys.take(i + 1).drop_last() == keys.take(i as int),
                keys.take(i + 1).last() == key,
                forall|m: int| 0 <= m < j ==> keys[m] != key,
            decreases i - j,
        {
            if pairs[j].0 == key {
                proof {
                    assert(keys.take(i as int)[j as int] == key);
                    assert(keys.take(i as int).contains(key));
                    lemma_first_repeat_prefix(keys, i + 1);
                }
                return Some(key);
            }
            j = j + 1;
        }
        proof {
            assert forall|m: int| 0 <= m < keys.take(i as int).len() implies keys.take(i as int)[m] != key by {
                assert(keys.take(i as int)[m] == keys[m]);
            }
        }
        i = i + 1;
    }
    proof {
        assert(keys.take(i as int) =~= keys);
    }
    None
}

} // verus!
