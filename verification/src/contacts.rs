//! Contact records, a keyed store for them, and a contact book that lists
//! its contacts sorted and filtered.

use vstd::prelude::*;
use vstd::string::*;
use crate::order::{
    compare_text, lemma_compare_text_chains, lemma_compare_text_flips, spec_compare_text, Precedence,
};
use crate::text::{contains, lowercase, lowercased, same_text, spec_contains};

verus! {

/// What a record must offer to be kept in a contact book.
pub trait ContactInfo: Sized {
    /// The key under which the record is kept.
    spec fn spec_id(&self) -> Seq<char>;

    /// Whether the record answers the search for `query`.
    spec fn spec_matches(&self, query: Seq<char>) -> bool;

    /// How the record stands to `other` when ordered by `field`.
    spec fn spec_compare(&self, other: &Self, field: Seq<char>) -> Precedence;

    /// The key under which the record is kept.
    fn get_id(&self) -> (id: &str)
        ensures
            id@ == self.spec_id(),
    ;

    /// Whether the record answers the search for `query`.
    fn matches_search(&self, query: &str) -> (r: bool)
        ensures
            r == self.spec_matches(query@),
    ;

    /// How the record stands to `other` when ordered by `field`.
    fn compare_by_field(&self, other: &Self, field: &str) -> (r: Precedence)
        ensures
            r == self.spec_compare(other, field@),
    ;
}

/// A person: name, phone number and e-mail address. The name is the key.
#[derive(Debug, Clone)]
pub struct BasicContact {
    pub name: String,
    pub phone: String,
    pub email: String,
}

/// A text holds `query`, letter case apart. The query is taken in lowercase.
pub open spec fn holds_folded(text: Seq<char>, query: Seq<char>) -> bool {
    spec_contains(lowercased(text), lowercased(query))
}

/// A text holds the lowercase form of `query` as it stands.
pub open spec fn holds_plain(text: Seq<char>, query: Seq<char>) -> bool {
    spec_contains(text, lowercased(query))
}

impl ContactInfo for BasicContact {
    open spec fn spec_id(&self) -> Seq<char> {
        self.name@
    }

    open spec fn spec_matches(&self, query: Seq<char>) -> bool {
        holds_folded(self.name@, query) || holds_plain(self.phone@, query) || holds_folded(
            self.email@,
            query,
        )
    }

    open spec fn spec_compare(&self, other: &Self, field: Seq<char>) -> Precedence {
        if field == "name"@ {
            spec_compare_text(self.name@, other.name@)
        } else if field == "phone"@ {
            spec_compare_text(self.phone@, other.phone@)
        } else if field == "email"@ {
            spec_compare_text(self.email@, other.email@)
        } else {
            Precedence::Equal
        }
    }

    fn get_id(&self) -> (id: &str) {
        self.name.as_str()
    }

    /// The name or the e-mail address holds the query, letter case apart, or
    /// the phone number holds the query in lowercase.
    fn matches_search(&self, query: &str) -> (r: bool) {
        let query = lowercase(query);
        contains(lowercase(self.name.as_str()).as_str(), query.as_str()) || contains(
            self.phone.as_str(),
            query.as_str(),
        ) || contains(lowercase(self.email.as_str()).as_str(), query.as_str())
    }

    /// Orders by `name`, `phone` or `email`; by any other field all records
    /// are equal.
    fn compare_by_field(&self, other: &Self, field: &str) -> (r: Precedence) {
        if same_text(field, "name") {
            compare_text(self.name.as_str(), other.name.as_str())
        } else if same_text(field, "phone") {
            compare_text(self.phone.as_str(), other.phone.as_str())
        } else if same_text(field, "email") {
            compare_text(self.email.as_str(), other.email.as_str())
        } else {
            Precedence::Equal
        }
    }
}

impl BasicContact {
    /// The record on one line: name, phone number, and the e-mail address in
    /// brackets.
    pub fn display(&self) -> (line: String)
        ensures
            line@ == self.name@ + " - "@ + self.phone@ + " ("@ + self.email@ + ")"@,
    {
        self.name.clone().concat(" - ").concat(self.phone.as_str()).concat(" (").concat(
            self.email.as_str(),
        ).concat(")")
    }
}

/// A firm: its name, which is the key, and whom to reach there and how.
#[derive(Debug, Clone)]
pub struct BusinessContact {
    pub company_name: String,
    pub contact_person: String,
    pub phone: String,
    pub email: String,
    pub address: String,
}

impl ContactInfo for BusinessContact {
    open spec fn spec_id(&self) -> Seq<char> {
        self.company_name@
    }

    open spec fn spec_matches(&self, query: Seq<char>) -> bool {
        holds_folded(self.company_name@, query) || holds_folded(self.contact_person@, query)
            || holds_plain(self.phone@, query) || holds_folded(self.email@, query) || holds_folded(
            self.address@,
            query,
        )
    }

    open spec fn spec_compare(&self, other: &Self, field: Seq<char>) -> Precedence {
        if field == "company"@ {
            spec_compare_text(self.company_name@, other.company_name@)
        } else if field == "contact"@ {
            spec_compare_text(self.contact_person@, other.contact_person@)
        } else if field == "phone"@ {
            spec_compare_text(self.phone@, other.phone@)
        } else if field == "email"@ {
            spec_compare_text(self.email@, other.email@)
        } else if field == "address"@ {
            spec_compare_text(self.address@, other.address@)
        } else {
            Precedence::Equal
        }
    }

    fn get_id(&self) -> (id: &str) {
        self.company_name.as_str()
    }

    /// One of the firm's name, the person, the e-mail address and the postal
    /// address holds the query, letter case apart, or the phone number holds
    /// the query in lowercase.
    fn matches_search(&self, query: &str) -> (r: bool) {
        let query = lowercase(query);
        contains(lowercase(self.company_name.as_str()).as_str(), query.as_str()) || contains(
            lowercase(self.contact_person.as_str()).as_str(),
            query.as_str(),
        ) || contains(self.phone.as_str(), query.as_str()) || contains(
            lowercase(self.email.as_str()).as_str(),
            query.as_str(),
        ) || contains(lowercase(self.address.as_str()).as_str(), query.as_str())
    }

    /// Orders by `company`, `contact`, `phone`, `email` or `address`; by any
    /// other field all records are equal.
    fn compare_by_field(&self, other: &Self, field: &str) -> (r: Precedence) {
        if same_text(field, "company") {
            compare_text(self.company_name.as_str(), other.company_name.as_str())
        } else if same_text(field, "contact") {
            compare_text(self.contact_person.as_str(), other.contact_person.as_str())
        } else if same_text(field, "phone") {
            compare_text(self.phone.as_str(), other.phone.as_str())
        } else if same_text(field, "email") {
            compare_text(self.email.as_str(), other.email.as_str())
        } else if same_text(field, "address") {
            compare_text(self.address.as_str(), other.address.as_str())
        } else {
            Precedence::Equal
        }
    }
}

impl BusinessContact {
    /// The record on one line: firm, the person in brackets, phone number and
    /// e-mail address.
    pub fn display(&self) -> (line: String)
        ensures
            line@ == self.company_name@ + " ("@ + self.contact_person@ + ") - "@ + self.phone@ + " - "@
                + self.email@,
    {
        self.company_name.clone().concat(" (").concat(self.contact_person.as_str()).concat(
            ") - ",
        ).concat(self.phone.as_str()).concat(" - ").concat(self.email.as_str())
    }
}

/// Some record of `items` is kept under `id`.
pub open spec fn has_id<T: ContactInfo>(items: Seq<T>, id: Seq<char>) -> bool {
    exists|i: int| 0 <= i < items.len() && (#[trigger] items[i]).spec_id() == id
}

/// No two records of `items` share a key.
pub open spec fn distinct_ids<T: ContactInfo>(items: Seq<T>) -> bool {
    forall|i: int, j: int|
        0 <= i < j < items.len() ==> (#[trigger] items[i]).spec_id() != (#[trigger] items[j]).spec_id()
}

/// The place of the record kept under `id`, where there is one.
pub open spec fn place_of<T: ContactInfo>(items: Seq<T>, id: Seq<char>) -> int {
    choose|i: int| 0 <= i < items.len() && (#[trigger] items[i]).spec_id() == id
}

/// `items` with `item` put under its key: in the place of the record that
/// had the key, or at the end where no record had it.
pub open spec fn put<T: ContactInfo>(items: Seq<T>, item: T) -> Seq<T> {
    if has_id(items, item.spec_id()) {
        items.update(place_of(items, item.spec_id()), item)
    } else {
        items.push(item)
    }
}

/// `items` without the record kept under `id`.
pub open spec fn without<T: ContactInfo>(items: Seq<T>, id: Seq<char>) -> Seq<T> {
    if has_id(items, id) {
        items.remove(place_of(items, id))
    } else {
        items
    }
}

/// The record kept under `id`, if there is one.
pub open spec fn lookup<T: ContactInfo>(items: Seq<T>, id: Seq<char>) -> Option<T> {
    if has_id(items, id) {
        Some(items[place_of(items, id)])
    } else {
        None
    }
}

/// A list of borrowed records seen as the sequence of the records.
pub open spec fn derefs<T>(v: Seq<&T>) -> Seq<T> {
    v.map_values(|r: &T| *r)
}

/// A store of records, each under its key, at most one record per key.
pub trait Storage<T: ContactInfo>: Sized {
    /// The records, in the order in which their keys first came.
    spec fn contents(&self) -> Seq<T>;

    /// Puts `item` under its key, in place of any record that had the key.
    fn add(&mut self, item: T)
        requires
            distinct_ids(old(self).contents()),
        ensures
            final(self).contents() == put(old(self).contents(), item),
            distinct_ids(final(self).contents()),
    ;

    /// Takes out the record kept under `id`, if there is one.
    fn remove(&mut self, id: &str) -> (r: Option<T>)
        requires
            distinct_ids(old(self).contents()),
        ensures
            r == lookup(old(self).contents(), id@),
            final(self).contents() == without(old(self).contents(), id@),
            distinct_ids(final(self).contents()),
    ;

    /// The record kept under `id`, if there is one.
    fn get(&self, id: &str) -> (r: Option<&T>)
        requires
            distinct_ids(self.contents()),
        ensures
            match r {
                Some(item) => lookup(self.contents(), id@) == Some(*item),
                None => lookup(self.contents(), id@) is None,
            },
    ;

    /// All records, in order.
    fn get_all(&self) -> (r: Vec<&T>)
        ensures
            derefs(r@) == self.contents(),
    ;
}

/// A store that keeps its records in a list, in the order in which their
/// keys first came.
#[derive(Debug)]
pub struct HashMapStorage<T: ContactInfo> {
    items: Vec<T>,
}

impl<T: ContactInfo> HashMapStorage<T> {
    /// An empty store.
    pub fn new() -> (s: Self)
        ensures
            s.contents() == Seq::<T>::empty(),
            distinct_ids(s.contents()),
    {
        HashMapStorage { items: Vec::new() }
    }

    /// The place of the record kept under `id`, if there is one.
    fn position(&self, id: &str) -> (r: Option<usize>)
        requires
            distinct_ids(self.items@),
        ensures
            match r {
                Some(i) => has_id(self.items@, id@) && i == place_of(self.items@, id@) && i < self.items@.len(),
                None => !has_id(self.items@, id@),
            },
    {
        let n: usize = self.items.len();
        let mut i: usize = 0;
        while i < n
            invariant
                i <= n,
                n == self.items@.len(),
                distinct_ids(self.items@),
                forall|j: int| 0 <= j < i ==> (#[trigger] self.items@[j]).spec_id() != id@,
            decreases n - i,
        {
            if same_text(self.items[i].get_id(), id) {
                let ghost found = place_of(self.items@, id@);
                assert(self.items@[i as int].spec_id() == id@);
                assert(found == i) by {
                    if found < i {
                        assert(self.items@[found].spec_id() != self.items@[i as int].spec_id());
                    }
                    if i < found {
                        assert(self.items@[i as int].spec_id() != self.items@[found].spec_id());
                    }
                }
                return Some(i);
            }
            i += 1;
        }
        None
    }
}

impl<T: ContactInfo> Storage<T> for HashMapStorage<T> {
    closed spec fn contents(&self) -> Seq<T> {
        self.items@
    }

    fn add(&mut self, item: T) {
        let ghost before = self.items@;
        match self.position(item.get_id()) {
            Some(i) => {
                self.items[i] = item;
                assert forall|a: int, b: int| 0 <= a < b < self.items@.len() implies (
                #[trigger] self.items@[a]).spec_id() != (#[trigger] self.items@[b]).spec_id() by {
                    assert(before[a].spec_id() != before[b].spec_id());
                }
            },
            None => {
                self.items.push(item);
                assert forall|a: int, b: int| 0 <= a < b < self.items@.len() implies (
                #[trigger] self.items@[a]).spec_id() != (#[trigger] self.items@[b]).spec_id() by {
                    if b < before.len() {
                        assert(before[a].spec_id() != before[b].spec_id());
                    } else {
                        assert(before[a].spec_id() != item.spec_id());
                    }
                }
            },
        }
    }

    fn remove(&mut self, id: &str) -> (r: Option<T>) {
        let ghost before = self.items@;
        match self.position(id) {
            Some(i) => {
                let item = self.items.remove(i);
                assert forall|a: int, b: int| 0 <= a < b < self.items@.len() implies (
                #[trigger] self.items@[a]).spec_id() != (#[trigger] self.items@[b]).spec_id() by {
                    let a0 = if a < i { a } else { a + 1 };
                    let b0 = if b < i { b } else { b + 1 };
                    assert(before[a0].spec_id() != before[b0].spec_id());
                }
                Some(item)
            },
            None => None,
        }
    }

    fn get(&self, id: &str) -> (r: Option<&T>) {
        match self.position(id) {
            Some(i) => Some(&self.items[i]),
            None => None,
        }
    }

    fn get_all(&self) -> (r: Vec<&T>) {
        let n: usize = self.items.len();
        let mut out: Vec<&T> = Vec::new();
        let mut i: usize = 0;
        while i < n
            invariant
                i <= n,
                n == self.items@.len(),
                out@.len() == i,
                forall|j: int| 0 <= j < i ==> *(#[trigger] out@[j]) == self.items@[j],
            decreases n - i,
        {
            out.push(&self.items[i]);
            i += 1;
        }
        assert(derefs(out@) =~= self.items@);
        out
    }
}

/// `s`, which is in order by `field`, with `x` put in: behind every record
/// that does not come after it, so that records that are equal by `field`
/// keep the order in which they came.
pub open spec fn insert_sorted<T: ContactInfo>(s: Seq<T>, x: T, field: Seq<char>) -> Seq<T>
    decreases s.len(),
{
    if s.len() == 0 {
        seq![x]
    } else if s.last().spec_compare(&x, field) == Precedence::Greater {
        insert_sorted(s.drop_last(), x, field).push(s.last())
    } else {
        s.push(x)
    }
}

/// `s` put in order by `field`, records that are equal by `field` in the
/// order in which they stand in `s`.
pub open spec fn sort_by_field<T: ContactInfo>(s: Seq<T>, field: Seq<char>) -> Seq<T>
    decreases s.len(),
{
    if s.len() == 0 {
        s
    } else {
        insert_sorted(sort_by_field(s.drop_last(), field), s.last(), field)
    }
}

/// What a listing holds: the records, sorted by `sort_by` where one is
/// given, and of those the ones that answer `filter_by` where one is given.
pub open spec fn spec_list<T: ContactInfo>(
    items: Seq<T>,
    sort_by: Option<Seq<char>>,
    filter_by: Option<Seq<char>>,
) -> Seq<T> {
    let sorted = match sort_by {
        Some(field) => sort_by_field(items, field),
        None => items,
    };
    match filter_by {
        Some(query) => sorted.filter(|c: T| c.spec_matches(query)),
        None => sorted,
    }
}

/// An optional text seen as an optional character sequence.
pub open spec fn opt_text(o: Option<&str>) -> Option<Seq<char>> {
    match o {
        Some(s) => Some(s@),
        None => None,
    }
}

/// Putting `x` in at `p` is putting it in in order, where every record from
/// `p` on comes after `x` and the record before `p`, if any, does not.
proof fn lemma_insert_at<T: ContactInfo>(s: Seq<T>, x: T, field: Seq<char>, p: int)
    requires
        0 <= p <= s.len(),
        forall|k: int| p <= k < s.len() ==> (#[trigger] s[k]).spec_compare(&x, field) == Precedence::Greater,
        p > 0 ==> s[p - 1].spec_compare(&x, field) != Precedence::Greater,
    ensures
        insert_sorted(s, x, field) == s.insert(p, x),
    decreases s.len(),
{
    if s.len() == 0 {
        assert(s.insert(p, x) =~= seq![x]);
    } else if p == s.len() {
        assert(s.insert(p, x) =~= s.push(x));
    } else {
        assert(s.last() == s[s.len() - 1]);
        lemma_insert_at(s.drop_last(), x, field, p);
        assert(s.insert(p, x) =~= s.drop_last().insert(p, x).push(s.last()));
    }
}

/// Putting a record in in order adds that record and no other.
pub proof fn lemma_insert_sorted_permutes<T: ContactInfo>(s: Seq<T>, x: T, field: Seq<char>)
    ensures
        insert_sorted(s, x, field).to_multiset() == s.to_multiset().insert(x),
        insert_sorted(s, x, field).len() == s.len() + 1,
    decreases s.len(),
{
    broadcast use vstd::seq_lib::group_to_multiset_ensures;

    if s.len() > 0 && s.last().spec_compare(&x, field) == Precedence::Greater {
        lemma_insert_sorted_permutes(s.drop_last(), x, field);
        assert(s =~= s.drop_last().push(s.last()));
        assert(s.drop_last().to_multiset().insert(x).insert(s.last()) =~= s.drop_last().to_multiset().insert(
            s.last(),
        ).insert(x));
    } else if s.len() == 0 {
        assert(seq![x] =~= s.push(x));
    }
}

/// Sorting keeps the records: each as often as it was there.
pub proof fn lemma_sort_permutes<T: ContactInfo>(s: Seq<T>, field: Seq<char>)
    ensures
        sort_by_field(s, field).to_multiset() == s.to_multiset(),
        sort_by_field(s, field).len() == s.len(),
    decreases s.len(),
{
    broadcast use vstd::seq_lib::group_to_multiset_ensures;

    if s.len() > 0 {
        lemma_sort_permutes(s.drop_last(), field);
        lemma_insert_sorted_permutes(sort_by_field(s.drop_last(), field), s.last(), field);
        assert(s =~= s.drop_last().push(s.last()));
    }
}

/// Puts borrowed records in order by `field`.
fn sort_refs<'a, T: ContactInfo>(items: Vec<&'a T>, field: &str) -> (out: Vec<&'a T>)
    ensures
        derefs(out@) == sort_by_field(derefs(items@), field@),
{
    let ghost all = derefs(items@);
    let n: usize = items.len();
    let mut out: Vec<&'a T> = Vec::new();
    let mut i: usize = 0;
    proof {
        assert(all.take(0) =~= Seq::<T>::empty());
        assert(derefs(out@) =~= Seq::<T>::empty());
    }
    while i < n
        invariant
            i <= n,
            n == items@.len(),
            all == derefs(items@),
            derefs(out@) == sort_by_field(all.take(i as int), field@),
        decreases n - i,
    {
        let x: &'a T = items[i];
        let ghost sorted = derefs(out@);
        let mut p: usize = out.len();
        let mut searching = true;
        while searching && p > 0
            invariant
                p <= out@.len(),
                sorted == derefs(out@),
                forall|k: int|
                    p <= k < sorted.len() ==> (#[trigger] sorted[k]).spec_compare(x, field@)
                        == Precedence::Greater,
                !searching ==> p > 0 && sorted[p - 1].spec_compare(x, field@) != Precedence::Greater,
            decreases p + if searching { 1nat } else { 0nat },
        {
            assert(sorted[p - 1] == *out@[p - 1]);
            let r = out[p - 1].compare_by_field(x, field);
            if r == Precedence::Greater {
                p -= 1;
            } else {
                searching = false;
            }
        }
        proof {
            lemma_insert_at(sorted, *x, field@, p as int);
            assert(all.take(i + 1).drop_last() =~= all.take(i as int));
            assert(all.take(i + 1).last() == *x);
        }
        out.insert(p, x);
        assert(derefs(out@) =~= sorted.insert(p as int, *x));
        i += 1;
    }
    assert(all.take(n as int) =~= all);
    out
}

/// Keeps, in order, the borrowed records that answer `query`.
fn filter_refs<'a, T: ContactInfo>(items: Vec<&'a T>, query: &str) -> (out: Vec<&'a T>)
    ensures
        derefs(out@) == derefs(items@).filter(|c: T| c.spec_matches(query@)),
{
    let ghost all = derefs(items@);
    let ghost wanted = |c: T| c.spec_matches(query@);
    let n: usize = items.len();
    let mut out: Vec<&'a T> = Vec::new();
    let mut i: usize = 0;
    proof {
        assert(all.take(0) =~= Seq::<T>::empty());
        assert(derefs(out@) =~= Seq::<T>::empty());
    }
    while i < n
        invariant
            i <= n,
            n == items@.len(),
            all == derefs(items@),
            wanted == (|c: T| c.spec_matches(query@)),
            derefs(out@) == all.take(i as int).filter(wanted),
        decreases n - i,
    {
        let x: &'a T = items[i];
        proof {
            assert(all.take(i + 1) =~= all.take(i as int).push(*x));
            all.take(i as int).lemma_filter_push(*x, wanted);
        }
        if x.matches_search(query) {
            let ghost kept = out@;
            out.push(x);
            assert(derefs(out@) =~= derefs(kept).push(*x));
        }
        i += 1;
    }
    assert(all.take(n as int) =~= all);
    out
}

/// A contact book over any store of any kind of record.
pub struct ContactBook<T: ContactInfo, S: Storage<T>> {
    storage: S,
    _phantom: std::marker::PhantomData<T>,
}

impl<T: ContactInfo, S: Storage<T>> ContactBook<T, S> {
    /// The contacts, in the order of the store.
    pub closed spec fn contacts(&self) -> Seq<T> {
        self.storage.contents()
    }

    /// What holds of every contact book: no key occurs twice.
    pub open spec fn wf(&self) -> bool {
        distinct_ids(self.contacts())
    }

    /// A contact book over `storage`.
    pub fn new(storage: S) -> (book: Self)
        requires
            distinct_ids(storage.contents()),
        ensures
            book.contacts() == storage.contents(),
            book.wf(),
    {
        ContactBook { storage, _phantom: std::marker::PhantomData }
    }

    /// Puts `contact` under its key, in place of any contact that had the
    /// key.
    pub fn add_contact(&mut self, contact: T)
        requires
            old(self).wf(),
        ensures
            final(self).wf(),
            final(self).contacts() == put(old(self).contacts(), contact),
    {
        self.storage.add(contact);
    }

    /// Takes out the contact kept under `id`, if there is one.
    pub fn remove_contact(&mut self, id: &str) -> (r: Option<T>)
        requires
            old(self).wf(),
        ensures
            final(self).wf(),
            r == lookup(old(self).contacts(), id@),
            final(self).contacts() == without(old(self).contacts(), id@),
    {
        self.storage.remove(id)
    }

    /// The contact kept under `id`, if there is one.
    pub fn get_contact(&self, id: &str) -> (r: Option<&T>)
        requires
            self.wf(),
        ensures
            match r {
                Some(contact) => lookup(self.contacts(), id@) == Some(*contact),
                None => lookup(self.contacts(), id@) is None,
            },
    {
        self.storage.get(id)
    }

    /// The contact whose key is `name`, if there is one.
    pub fn search_contact(&self, name: &str) -> (r: Option<&T>)
        requires
            self.wf(),
        ensures
            match r {
                Some(contact) => lookup(self.contacts(), name@) == Some(*contact),
                None => lookup(self.contacts(), name@) is None,
            },
    {
        self.storage.get(name)
    }

    /// Lists the contacts: sorted by `sort_by` where a field is given, and of
    /// those the ones that answer `filter_by` where a query is given.
    pub fn list_contacts(&self, sort_by: Option<&str>, filter_by: Option<&str>) -> (r: Vec<&T>)
        ensures
            derefs(r@) == spec_list(self.contacts(), opt_text(sort_by), opt_text(filter_by)),
    {
        let mut contacts = self.storage.get_all();
        match sort_by {
            Some(field) => {
                contacts = sort_refs(contacts, field);
            },
            None => {},
        }
        match filter_by {
            Some(query) => {
                contacts = filter_refs(contacts, query);
            },
            None => {},
        }
        contacts
    }
}

/// Comparing records of one kind by `field` is an order: of two records
/// never each comes after the other, and not coming after is transitive.
pub open spec fn is_order<T: ContactInfo>(field: Seq<char>) -> bool {
    &&& forall|a: T, b: T| #[trigger]
        a.spec_compare(&b, field) == Precedence::Greater ==> b.spec_compare(&a, field)
            != Precedence::Greater
    &&& forall|a: T, b: T, c: T|
        (#[trigger] a.spec_compare(&b, field)) != Precedence::Greater && (#[trigger] b.spec_compare(
            &c,
            field,
        )) != Precedence::Greater ==> a.spec_compare(&c, field) != Precedence::Greater
}

/// No record of `s` comes after a later one.
pub open spec fn in_order<T: ContactInfo>(s: Seq<T>, field: Seq<char>) -> bool {
    forall|i: int, j: int|
        #![trigger s[i], s[j]]
        0 <= i < j < s.len() ==> s[i].spec_compare(&s[j], field) != Precedence::Greater
}

/// Where a record is put in: behind the last record that does not come after
/// it.
proof fn lemma_insert_place<T: ContactInfo>(s: Seq<T>, x: T, field: Seq<char>) -> (p: int)
    ensures
        0 <= p <= s.len(),
        insert_sorted(s, x, field) == s.insert(p, x),
        forall|k: int| p <= k < s.len() ==> (#[trigger] s[k]).spec_compare(&x, field) == Precedence::Greater,
        p > 0 ==> s[p - 1].spec_compare(&x, field) != Precedence::Greater,
    decreases s.len(),
{
    if s.len() == 0 {
        assert(s.insert(0, x) =~= seq![x]);
        0
    } else if s.last().spec_compare(&x, field) == Precedence::Greater {
        let rest = s.drop_last();
        let p = lemma_insert_place(rest, x, field);
        assert(s.insert(p, x) =~= rest.insert(p, x).push(s.last()));
        assert forall|k: int| p <= k < s.len() implies (#[trigger] s[k]).spec_compare(&x, field)
            == Precedence::Greater by {
            if k < rest.len() {
                assert(rest[k] == s[k]);
            }
        }
        if p > 0 {
            assert(rest[p - 1] == s[p - 1]);
        }
        p
    } else {
        assert(s.insert(s.len() as int, x) =~= s.push(x));
        s.len() as int
    }
}

/// Putting a record in in order keeps the order.
pub proof fn lemma_insert_keeps_order<T: ContactInfo>(s: Seq<T>, x: T, field: Seq<char>)
    requires
        is_order::<T>(field),
        in_order(s, field),
    ensures
        in_order(insert_sorted(s, x, field), field),
{
    let p = lemma_insert_place(s, x, field);
    let r = s.insert(p, x);
    assert forall|i: int, j: int| 0 <= i < j < r.len() implies r[i].spec_compare(&r[j], field)
        != Precedence::Greater by {
        if j < p {
            assert(r[i] == s[i] && r[j] == s[j]);
        } else if j == p {
            assert(r[i] == s[i] && r[j] == x);
            if i < p - 1 {
                assert(s[i].spec_compare(&s[p - 1], field) != Precedence::Greater);
            }
        } else if i < p {
            assert(r[i] == s[i] && r[j] == s[j - 1]);
        } else if i == p {
            assert(r[i] == x && r[j] == s[j - 1]);
            assert(s[j - 1].spec_compare(&x, field) == Precedence::Greater);
        } else {
            assert(r[i] == s[i - 1] && r[j] == s[j - 1]);
        }
    }
}

/// Sorting by a field that orders the records puts them in order.
pub proof fn lemma_sort_orders<T: ContactInfo>(s: Seq<T>, field: Seq<char>)
    requires
        is_order::<T>(field),
    ensures
        in_order(sort_by_field(s, field), field),
    decreases s.len(),
{
    if s.len() > 0 {
        lemma_sort_orders(s.drop_last(), field);
        lemma_insert_keeps_order(sort_by_field(s.drop_last(), field), s.last(), field);
    }
}

/// Every field orders the records of persons.
pub proof fn lemma_basic_contact_order(field: Seq<char>)
    ensures
        is_order::<BasicContact>(field),
{
    assert forall|a: BasicContact, b: BasicContact| #[trigger]
        a.spec_compare(&b, field) == Precedence::Greater implies b.spec_compare(&a, field)
        != Precedence::Greater by {
        lemma_compare_text_flips(a.name@, b.name@);
        lemma_compare_text_flips(a.phone@, b.phone@);
        lemma_compare_text_flips(a.email@, b.email@);
    }
    assert forall|a: BasicContact, b: BasicContact, c: BasicContact|
        (#[trigger] a.spec_compare(&b, field)) != Precedence::Greater && (#[trigger] b.spec_compare(
            &c,
            field,
        )) != Precedence::Greater implies a.spec_compare(&c, field) != Precedence::Greater by {
        if field == "name"@ {
            lemma_compare_text_chains(a.name@, b.name@, c.name@);
        } else if field == "phone"@ {
            lemma_compare_text_chains(a.phone@, b.phone@, c.phone@);
        } else if field == "email"@ {
            lemma_compare_text_chains(a.email@, b.email@, c.email@);
        }
    }
}

/// Every field orders the records of firms.
pub proof fn lemma_business_contact_order(field: Seq<char>)
    ensures
        is_order::<BusinessContact>(field),
{
    assert forall|a: BusinessContact, b: BusinessContact| #[trigger]
        a.spec_compare(&b, field) == Precedence::Greater implies b.spec_compare(&a, field)
        != Precedence::Greater by {
        lemma_compare_text_flips(a.company_name@, b.company_name@);
        lemma_compare_text_flips(a.contact_person@, b.contact_person@);
        lemma_compare_text_flips(a.phone@, b.phone@);
        lemma_compare_text_flips(a.email@, b.email@);
        lemma_compare_text_flips(a.address@, b.address@);
    }
    assert forall|a: BusinessContact, b: BusinessContact, c: BusinessContact|
        (#[trigger] a.spec_compare(&b, field)) != Precedence::Greater && (#[trigger] b.spec_compare(
            &c,
            field,
        )) != Precedence::Greater implies a.spec_compare(&c, field) != Precedence::Greater by {
        if field == "company"@ {
            lemma_compare_text_chains(a.company_name@, b.company_name@, c.company_name@);
        } else if field == "contact"@ {
            lemma_compare_text_chains(a.contact_person@, b.contact_person@, c.contact_person@);
        } else if field == "phone"@ {
            lemma_compare_text_chains(a.phone@, b.phone@, c.phone@);
        } else if field == "email"@ {
            lemma_compare_text_chains(a.email@, b.email@, c.email@);
        } else if field == "address"@ {
            lemma_compare_text_chains(a.address@, b.address@, c.address@);
        }
    }
}

} // verus!
