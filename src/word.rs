use vstd::prelude::*;

use crate::error::{ComponentPackageError, ErrorModel};

verus! {

/// The unit of storage: four field elements, each held as its integer value.
#[derive(Clone, Copy, Debug, Default, PartialEq, Eq, Structural)]
pub struct Word(pub u64, pub u64, pub u64, pub u64);

/// The type a placeholder expects its value to have.
#[derive(Clone, Copy, Debug, PartialEq, Eq, Structural)]
pub enum TemplateType {
    Felt,
    Word,
}

/// A value supplied at instantiation time for a named placeholder.
#[derive(Clone, Copy, Debug, PartialEq, Eq, Structural)]
pub enum TemplateValue {
    Felt(u64),
    Word(Word),
}

/// How a stored word is declared: as a literal, or as a placeholder to be filled in later.
#[derive(Clone, Debug, PartialEq, Eq)]
pub enum WordRepresentation {
    /// A word written as one hexadecimal literal.
    SingleHex(Word),
    /// A word written as an array of four elements.
    Array(Word),
    /// A placeholder, named by its key, that expects a word.
    Template(String),
}

impl Default for WordRepresentation {
    /// The literal zero word.
    fn default() -> (r: WordRepresentation)
        ensures
            r == WordRepresentation::SingleHex(Word(0, 0, 0, 0)),
    {
        WordRepresentation::SingleHex(Word(0, 0, 0, 0))
    }
}

/// The placeholder values handed to instantiation, keyed by placeholder name.
///
/// A later value for a key shadows an earlier one.
#[derive(Clone, Debug)]
pub struct TemplateValues {
    entries: Vec<(String, TemplateValue)>,
}

/// The value bound to `key` in a list of bindings, the last binding winning.
pub open spec fn lookup(entries: Seq<(String, TemplateValue)>, key: Seq<char>) -> Option<TemplateValue>
    decreases entries.len(),
{
    if entries.len() == 0 {
        None
    } else if entries.last().0@ == key {
        Some(entries.last().1)
    } else {
        lookup(entries.drop_last(), key)
    }
}

proof fn lemma_lookup_prefix(entries: Seq<(String, TemplateValue)>, key: Seq<char>, i: int)
    requires
        0 <= i <= entries.len(),
        forall|j: int| i <= j < entries.len() ==> entries[j].0@ != key,
    ensures
        lookup(entries, key) == lookup(entries.take(i), key),
    decreases entries.len(),
{
    if entries.len() > i {
        assert(entries.drop_last().take(i) =~= entries.take(i));
        lemma_lookup_prefix(entries.drop_last(), key, i);
    } else {
        assert(entries.take(i) =~= entries);
    }
}

impl TemplateValues {
    /// The value bound to `key`, if any.
    pub closed spec fn value_of(&self, key: Seq<char>) -> Option<TemplateValue> {
        lookup(self.entries@, key)
    }

    /// A map that binds no key.
    pub fn new() -> (r: TemplateValues)
        ensures
            forall|k: Seq<char>| r.value_of(k) is None,
    {
        TemplateValues { entries: Vec::new() }
    }

    /// Binds `key` to `value`, replacing any earlier binding of that key.
    pub fn insert(&mut self, key: String, value: TemplateValue)
        ensures
            final(self).value_of(key@) == Some(value),
            forall|k: Seq<char>| k != key@ ==> final(self).value_of(k) == old(self).value_of(k),
    {
        self.entries.push((key, value));
        proof {
            assert(self.entries@.drop_last() =~= old(self).entries@);
        }
    }

    /// The value bound to `key`, if any.
    pub fn get(&self, key: &String) -> (r: Option<TemplateValue>)
        ensures
            r == self.value_of(key@),
    {
        let mut i: usize = self.entries.len();
        while i > 0
            invariant
                i <= self.entries@.len(),
                forall|j: int| i <= j < self.entries@.len() ==> self.entries@[j].0@ != key@,
            decreases i,
        {
            if self.entries[i - 1].0 == *key {
                proof {
                    lemma_lookup_prefix(self.entries@, key@, i as int);
                    assert(self.entries@.take(i as int).last() == self.entries@[i - 1]);
                }
                return Some(self.entries[i - 1].1);
            }
            i = i - 1;
        }
        proof {
            lemma_lookup_prefix(self.entries@, key@, 0);
        }
        None
    }
}

/// The word that `rep` stands for under the placeholder values `values`, or why there is none.
pub open spec fn resolve_word(rep: WordRepresentation, values: TemplateValues) -> Result<Word, ErrorModel> {
    match rep {
        WordRepresentation::SingleHex(w) => Ok(w),
        WordRepresentation::Array(w) => Ok(w),
        WordRepresentation::Template(key) => match values.value_of(key@) {
            None => Err(ErrorModel::TemplateValueNotProvided(key@)),
            Some(TemplateValue::Word(w)) => Ok(w),
            Some(TemplateValue::Felt(_)) => Err(ErrorModel::IncorrectTemplateValue(TemplateType::Word)),
        },
    }
}

/// A result whose error is replaced by its mathematical value.
pub open spec fn result_model<T>(r: Result<T, ComponentPackageError>) -> Result<T, ErrorModel> {
    match r {
        Ok(v) => Ok(v),
        Err(e) => Err(e@),
    }
}

/// The key named by a placeholder token `{{key}}`, if `s` is one.
pub open spec fn placeholder_key_of(s: Seq<char>) -> Option<Seq<char>> {
    if s.len() >= 4 && s[0] == '{' && s[1] == '{' && s[s.len() - 2] == '}' && s[s.len() - 1] == '}' {
        Some(s.subrange(2, s.len() - 2))
    } else {
        None
    }
}

/// The placeholder token written for `key`.
pub open spec fn placeholder_token(key: Seq<char>) -> Seq<char> {
    "{{"@ + key + "}}"@
}

/// Reading back the token written for a key gives that key.
pub proof fn lemma_placeholder_round_trip(key: Seq<char>)
    ensures
        placeholder_key_of(placeholder_token(key)) == Some(key),
{
    reveal_strlit("{{");
    reveal_strlit("}}");
    let t = placeholder_token(key);
    assert(t.subrange(2, t.len() - 2) =~= key);
}

impl WordRepresentation {
    /// Reads a placeholder token `{{key}}`, giving its key.
    pub fn placeholder_key(text: &str) -> (r: Option<String>)
        ensures
            match r {
                Some(k) => placeholder_key_of(text@) == Some(k@),
                None => placeholder_key_of(text@) is None,
            },
    {
        let n = text.unicode_len();
        if n >= 4 && text.get_char(0) == '{' && text.get_char(1) == '{' && text.get_char(n - 2) == '}'
            && text.get_char(n - 1) == '}' {
            Some(text.substring_char(2, n - 2).to_owned())
        } else {
            None
        }
    }

    /// Writes the placeholder token for `key`.
    pub fn placeholder_text(key: &str) -> (r: String)
        ensures
            r@ == placeholder_token(key@),
    {
        let mut t = String::from_str("{{");
        t.append(key);
        t.append("}}");
        t
    }

    /// Resolves this representation to a concrete word.
    pub fn try_resolve(&self, values: &TemplateValues) -> (r: Result<Word, ComponentPackageError>)
        ensures
            result_model(r) == resolve_word(*self, *values),
    {
        match self {
            WordRepresentation::SingleHex(w) => Ok(*w),
            WordRepresentation::Array(w) => Ok(*w),
            WordRepresentation::Template(key) => match values.get(key) {
                None => Err(ComponentPackageError::TemplateValueNotProvided(key.clone())),
                Some(TemplateValue::Word(w)) => Ok(w),
                Some(TemplateValue::Felt(_)) => Err(
                    ComponentPackageError::IncorrectTemplateValue(TemplateType::Word),
                ),
            },
        }
    }
}

} // verus!
