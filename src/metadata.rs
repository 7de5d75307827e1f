use std::collections::BTreeSet;

use vstd::prelude::*;
use vstd::set_lib::{lemma_int_range, lemma_len_subset, lemma_subset_equality};

use crate::account_type::AccountType;
use crate::error::{ComponentPackageError, ErrorModel};
use crate::sequences::{first_repeat, lemma_first_repeat_none, lemma_first_repeat_prefix};
use crate::storage::{key_views, StorageEntry};
use crate::version::Version;

verus! {

/// Every slot index declared by `entries`, in declaration order.
pub open spec fn all_slots(entries: Seq<StorageEntry>) -> Seq<u8>
    decreases entries.len(),
{
    if entries.len() == 0 {
        Seq::empty()
    } else {
        all_slots(entries.drop_last()) + entries.last().spec_slot_indices()
    }
}

/// Every placeholder key named by `entries`, in declaration order, repeats included.
pub open spec fn all_template_keys(entries: Seq<StorageEntry>) -> Seq<Seq<char>>
    decreases entries.len(),
{
    if entries.len() == 0 {
        Seq::empty()
    } else {
        all_template_keys(entries.drop_last()) + entries.last().spec_template_keys()
    }
}

/// Whether the slot indices `s` form a usable layout, and the first reason if they do not.
///
/// A repeated index is reported first (the earliest repeat); then a layout that does not start
/// at slot 0; then one whose indices leave a gap, which for distinct indices is the same as
/// holding an index not below their count.
pub open spec fn slot_check(s: Seq<u8>) -> Result<(), ErrorModel> {
    match first_repeat(s) {
        Some(d) => Err(ErrorModel::DuplicateSlots(d)),
        None => if s.len() > 0 && !s.contains(0u8) {
            Err(ErrorModel::IncorrectStorageFirstSlot)
        } else if exists|i: int| 0 <= i < s.len() && s[i] as int >= s.len() {
            Err(ErrorModel::NonContiguousSlots)
        } else {
            Ok(())
        },
    }
}

/// Distinct indices all below their count cover every index below it.
pub proof fn lemma_distinct_below_count_covers(s: Seq<u8>)
    requires
        s.no_duplicates(),
        forall|i: int| 0 <= i < s.len() ==> (s[i] as int) < s.len(),
    ensures
        forall|k: int| 0 <= k < s.len() ==> #[trigger] s.contains(k as u8),
{
    let t = s.map_values(|x: u8| x as int);
    assert forall|i: int, j: int| 0 <= i < t.len() && 0 <= j < t.len() && i != j implies t[i] != t[j] by {
        assert(s[i] != s[j]);
    }
    t.unique_seq_to_set();
    lemma_int_range(0, s.len() as int);
    let range = vstd::set_lib::set_int_range(0, s.len() as int);
    assert(t.to_set().subset_of(range)) by {
        assert forall|x: int| t.to_set().contains(x) implies range.contains(x) by {
            let i = choose|i: int| 0 <= i < t.len() && t[i] == x;
        }
    }
    lemma_len_subset(t.to_set(), range);
    lemma_subset_equality(t.to_set(), range);
    assert forall|k: int| 0 <= k < s.len() implies #[trigger] s.contains(k as u8) by {
        assert(range.contains(k));
        assert(t.to_set().contains(k));
        let i = choose|i: int| 0 <= i < t.len() && t[i] == k;
        assert(s[i] == k as u8);
    }
}

/// Entries whose slot indices are exactly 0, 1, ..., n-1, each declared once, pass the layout check.
pub proof fn lemma_exact_range_is_valid(entries: Seq<StorageEntry>)
    requires
        all_slots(entries).no_duplicates(),
        forall|x: u8| all_slots(entries).contains(x) <==> (x as int) < all_slots(entries).len(),
    ensures
        slot_check(all_slots(entries)) == Ok::<(), ErrorModel>(()),
{
    let s = all_slots(entries);
    lemma_first_repeat_none(s);
    assert forall|i: int| 0 <= i < s.len() implies (s[i] as int) < s.len() by {
        assert(s.contains(s[i]));
    }
    if s.len() > 0 {
        assert((0u8 as int) < s.len());
    }
}

/// Entries that declare some slot index more than once fail with DuplicateSlots, naming an index
/// that is declared twice.
pub proof fn lemma_repeated_slot_is_reported(entries: Seq<StorageEntry>)
    requires
        !all_slots(entries).no_duplicates(),
    ensures
        slot_check(all_slots(entries)) matches Err(ErrorModel::DuplicateSlots(d)) && exists|i: int, j: int|
            0 <= i < j < all_slots(entries).len() && all_slots(entries)[i] == d && all_slots(entries)[j] == d,
{
    lemma_first_repeat_none(all_slots(entries));
}

/// Entries with distinct slot indices that leave out slot 0 fail with IncorrectStorageFirstSlot.
pub proof fn lemma_missing_first_slot_is_reported(entries: Seq<StorageEntry>)
    requires
        all_slots(entries).no_duplicates(),
        all_slots(entries).len() > 0,
        !all_slots(entries).contains(0u8),
    ensures
        slot_check(all_slots(entries)) == Err::<(), ErrorModel>(ErrorModel::IncorrectStorageFirstSlot),
{
    lemma_first_repeat_none(all_slots(entries));
}

/// Entries with distinct slot indices, slot 0 among them, that skip an index below a declared one
/// fail with NonContiguousSlots.
pub proof fn lemma_gap_is_reported(entries: Seq<StorageEntry>, gap: u8)
    requires
        all_slots(entries).no_duplicates(),
        all_slots(entries).contains(0u8),
        !all_slots(entries).contains(gap),
        exists|i: int| 0 <= i < all_slots(entries).len() && gap < all_slots(entries)[i],
    ensures
        slot_check(all_slots(entries)) == Err::<(), ErrorModel>(ErrorModel::NonContiguousSlots),
{
    let s = all_slots(entries);
    lemma_first_repeat_none(s);
    if !(exists|i: int| 0 <= i < s.len() && s[i] as int >= s.len()) {
        lemma_distinct_below_count_covers(s);
        let i = choose|i: int| 0 <= i < s.len() && gap < s[i];
        assert((s[i] as int) < s.len());
        assert(s.contains((gap as int) as u8));
    }
}

/// The descriptive header and storage layout of a component.
///
/// Its slot indices are always distinct, start at 0 and leave no gap.
#[derive(Debug, PartialEq, Eq)]
pub struct ComponentMetadata {
    name: String,
    description: String,
    version: Version,
    targets: BTreeSet<AccountType>,
    storage: Vec<StorageEntry>,
}

impl ComponentMetadata {
    #[verifier::type_invariant]
    spec fn layout_is_valid(&self) -> bool {
        slot_check(all_slots(self.storage@)) is Ok
    }

    pub closed spec fn spec_name(&self) -> String {
        self.name
    }

    pub closed spec fn spec_description(&self) -> String {
        self.description
    }

    pub closed spec fn spec_version(&self) -> Version {
        self.version
    }

    pub closed spec fn spec_targets(&self) -> BTreeSet<AccountType> {
        self.targets
    }

    pub closed spec fn spec_storage(&self) -> Seq<StorageEntry> {
        self.storage@
    }

    /// Builds metadata from its parts, checking the storage layout.
    pub fn new(
        name: String,
        description: String,
        version: Version,
        targets: BTreeSet<AccountType>,
        storage: Vec<StorageEntry>,
    ) -> (r: Result<ComponentMetadata, ComponentPackageError>)
        ensures
            match r {
                Ok(m) => {
                    &&& slot_check(all_slots(storage@)) is Ok
                    &&& m.spec_name() == name
                    &&& m.spec_description() == description
                    &&& m.spec_version() == version
                    &&& m.spec_targets() == targets
                    &&& m.spec_storage() == storage@
                },
                Err(e) => slot_check(all_slots(storage@)) == Err::<(), ErrorModel>(e@),
            },
    {
        match check_layout(&storage) {
            Err(e) => Err(e),
            Ok(()) => Ok(ComponentMetadata { name, description, version, targets, storage }),
        }
    }

    /// Checks the storage layout again; on a metadata value this always succeeds.
    pub fn validate(&self) -> (r: Result<(), ComponentPackageError>)
        ensures
            r is Ok,
            result_of_check(r) == slot_check(all_slots(self.spec_storage())),
    {
        proof {
            use_type_invariant(self);
        }
        check_layout(&self.storage)
    }

    /// The placeholder keys that need a value at instantiation, each once.
    pub fn template_keys(&self) -> (r: Vec<String>)
        ensures
            key_views(r@).no_duplicates(),
            forall|k: Seq<char>| key_views(r@).contains(k) <==> all_template_keys(self.spec_storage()).contains(k),
    {
        let mut out: Vec<String> = Vec::new();
        let mut i: usize = 0;
        proof {
            assert(self.storage@.take(0) =~= Seq::<StorageEntry>::empty());
            assert(key_views(out@) =~= Seq::<Seq<char>>::empty());
        }
        while i < self.storage.len()
            invariant
                i <= self.storage@.len(),
                key_views(out@).no_duplicates(),
                forall|k: Seq<char>| key_views(out@).contains(k) <==> all_template_keys(self.storage@.take(i as int)).contains(k),
            decreases self.storage@.len() - i,
        {
            let keys = self.storage[i].template_keys();
            let ghost done = all_template_keys(self.storage@.take(i as int));
            let mut j: usize = 0;
            while j < keys.len()
                invariant
                    j <= keys@.len(),
                    key_views(out@).no_duplicates(),
                    forall|k: Seq<char>| key_views(out@).contains(k) <==> (done + key_views(keys@).take(j as int)).contains(k),
                decreases keys@.len() - j,
            {
                let key = &keys[j];
                let mut found = false;
                let mut m: usize = 0;
                while m < out.len()
                    invariant
                        m <= out@.len(),
                        found <==> exists|x: int| 0 <= x < m && out@[x]@ == key@,
                    decreases out@.len() - m,
                {
                    if out[m] == *key {
                        found = true;
                    }
                    m = m + 1;
                }
                let ghost before = out@;
                if !found {
                    out.push(key.clone());
                    proof {
                        assert(key_views(out@) =~= key_views(before).push(key@));
                        assert forall|x: int, y: int| 0 <= x < y < key_views(out@).len() implies key_views(out@)[x] != key_views(out@)[y] by {
                            if y == key_views(out@).len() - 1 {
                                assert(key_views(before)[x] == before[x]@);
                            } else {
                                assert(key_views(before)[x] != key_views(before)[y]);
                            }
                        }
                    }
                }
                proof {
                    let prev = done + key_views(keys@).take(j as int);
                    let next = done + key_views(keys@).take(j + 1);
                    assert(next =~= prev.push(key@));
                    assert forall|k: Seq<char>| key_views(out@).contains(k) <==> next.contains(k) by {
                        if key_views(out@).contains(k) {
                            let x = choose|x: int| 0 <= x < key_views(out@).len() && key_views(out@)[x] == k;
                            if found || x < key_views(before).len() {
                                assert(key_views(before)[x] == k);
                                assert(key_views(before).contains(k));
                                assert(prev.contains(k));
                                let y = choose|y: int| 0 <= y < prev.len() && prev[y] == k;
                                assert(next[y] == k);
                            } else {
                                assert(next[next.len() - 1] == k);
                            }
                        }
                        if next.contains(k) {
                            let y = choose|y: int| 0 <= y < next.len() && next[y] == k;
                            if y < prev.len() {
                                assert(prev[y] == k);
                                assert(prev.contains(k));
                                assert(key_views(before).contains(k));
                                let x = choose|x: int| 0 <= x < key_views(before).len() && key_views(before)[x] == k;
                                assert(key_views(out@)[x] == k);
                            } else if found {
                                let x = choose|x: int| 0 <= x < out@.len() && out@[x]@ == key@;
                                assert(key_views(out@)[x] == k);
                            } else {
                                assert(key_views(out@)[key_views(out@).len() - 1] == k);
                            }
                        }
                    }
                }
                j = j + 1;
            }
            proof {
                assert(key_views(keys@).take(j as int) =~= key_views(keys@));
                assert(self.storage@.take(i + 1).drop_last() =~= self.storage@.take(i as int));
            }
            i = i + 1;
        }
        proof {
            assert(self.storage@.take(i as int) =~= self.storage@);
        }
        out
    }

    pub fn name(&self) -> (r: &str)
        ensures
            r@ == self.spec_name()@,
    {
        self.name.as_str()
    }

    pub fn description(&self) -> (r: &str)
        ensures
            r@ == self.spec_description()@,
    {
        self.description.as_str()
    }

    pub fn version(&self) -> (r: &Version)
        ensures
            *r == self.spec_version(),
    {
        &self.version
    }

    pub fn targets(&self) -> (r: &BTreeSet<AccountType>)
        ensures
            *r == self.spec_targets(),
    {
        &self.targets
    }

    pub fn storage_entries(&self) -> (r: &Vec<StorageEntry>)
        ensures
            r@ == self.spec_storage(),
    {
        &self.storage
    }
}

/// The mathematical value of a layout check's result.
pub open spec fn result_of_check(r: Result<(), ComponentPackageError>) -> Result<(), ErrorModel> {
    match r {
        Ok(()) => Ok(()),
        Err(e) => Err(e@),
    }
}

/// Collects the slot indices of all entries, in declaration order.
fn collect_slots(storage: &Vec<StorageEntry>) -> (r: Vec<u8>)
    ensures
        r@ == all_slots(storage@),
{
    let mut out: Vec<u8> = Vec::new();
    let mut i: usize = 0;
    proof {
        assert(storage@.take(0) =~= Seq::<StorageEntry>::empty());
    }
    while i < storage.len()
        invariant
            i <= storage@.len(),
            out@ == all_slots(storage@.take(i as int)),
        decreases storage@.len() - i,
    {
        let indices = storage[i].slot_indices();
        let mut j: usize = 0;
        let ghost start = out@;
        while j < indices.len()
            invariant
                j <= indices@.len(),
                out@ == start + indices@.take(j as int),
            decreases indices@.len() - j,
        {
            out.push(indices[j]);
            proof {
                assert(indices@.take(j + 1) =~= indices@.take(j as int).push(indices@[j as int]));
            }
            j = j + 1;
        }
        proof {
            assert(indices@.take(j as int) =~= indices@);
            assert(storage@.take(i + 1).drop_last() =~= storage@.take(i as int));
        }
        i = i + 1;
    }
    proof {
        assert(storage@.take(i as int) =~= storage@);
    }
    out
}

/// Checks that the entries' slot indices are distinct, start at 0 and are contiguous.
fn check_layout(storage: &Vec<StorageEntry>) -> (r: Result<(), ComponentPackageError>)
    ensures
        result_of_check(r) == slot_check(all_slots(storage@)),
{
    let all = collect_slots(storage);
    let n = all.len();
    let mut seen: Vec<bool> = Vec::new();
    let mut b: usize = 0;
    while b < 256
        invariant
            b <= 256,
            seen@.len() == b,
            forall|k: int| 0 <= k < b ==> !seen@[k],
        decreases 256 - b,
    {
        seen.push(false);
        b = b + 1;
    }
    let mut i: usize = 0;
    proof {
        assert(all@.take(0) =~= Seq::<u8>::empty());
    }
    while i < n
        invariant
            all@ == all_slots(storage@),
            n == all@.len(),
            i <= n,
            seen@.len() == 256,
            first_repeat(all@.take(i as int)) is None,
            forall|k: int| 0 <= k < 256 ==> (seen@[k] <==> all@.take(i as int).contains(k as u8)),
        decreases n - i,
    {
        let x = all[i];
        proof {
            assert(all@.take(i + 1).drop_last() =~= all@.take(i as int));
            assert(all@.take(i + 1).last() == x);
        }
        if seen[x as usize] {
            proof {
                assert(seen@[x as int]);
                assert(((x as int) as u8) == x);
                assert(all@.take(i as int).contains(x));
                assert(first_repeat(all@.take(i + 1)) == Some(x));
                lemma_first_repeat_prefix(all@, i + 1);
            }
            return Err(ComponentPackageError::DuplicateSlots(x));
        }
        seen.set(x as usize, true);
        proof {
            assert forall|k: int| 0 <= k < 256 implies (seen@[k] <==> all@.take(i + 1).contains(k as u8)) by {
                if all@.take(i + 1).contains(k as u8) {
                    let m = choose|m: int| 0 <= m < i + 1 && #[trigger] all@.take(i + 1)[m] == k as u8;
                    if m < i {
                        assert(all@.take(i as int)[m] == k as u8);
                    }
                }
                if all@.take(i as int).contains(k as u8) {
                    let m = choose|m: int| 0 <= m < i && #[trigger] all@.take(i as int)[m] == k as u8;
                    assert(all@.take(i + 1)[m] == k as u8);
                }
            }
        }
        i = i + 1;
    }
    proof {
        assert(all@.take(n as int) =~= all@);
    }
    if n > 0 && !seen[0] {
        return Err(ComponentPackageError::IncorrectStorageFirstSlot);
    }
    proof {
        if n > 0 {
            assert(seen@[0int]);
            assert(all@.take(n as int).contains((0int) as u8));
            assert(all@.contains(0u8));
        }
    }
    let mut i: usize = 0;
    while i < n
        invariant
            all@ == all_slots(storage@),
            n == all@.len(),
            i <= n,
            first_repeat(all@) is None,
            n == 0 || all@.contains(0u8),
            forall|j: int| 0 <= j < i ==> (all@[j] as int) < n,
        decreases n - i,
    {
        if all[i] as usize >= n {
            proof {
                assert(all@[i as int] as int >= all@.len());
            }
            return Err(ComponentPackageError::NonContiguousSlots);
        }
        i = i + 1;
    }
    Ok(())
}

} // verus!
