//! The store as a mathematical value: what it holds, how the walk over the
//! pages of an image builds it up record by record, and what its queries
//! answer.

use crate::error::DecodeError;
use crate::nvs::event::{EntryModel, ValueModel};
use crate::nvs::page::{EntryStateBitmap, PageModel, PAGE_SIZE, PAGE_SLOTS, SLOT_SIZE};
use crate::nvs::parsers::{entry_spec, page_spec};
use vstd::prelude::*;

verus! {

/// Number of namespace ids.
pub const NAMESPACE_IDS: usize = 256;

/// What a store holds, as plain mathematical values.
pub struct NvsModel {
    /// The pages, in file order.
    pub pages: Seq<PageModel>,
    /// The records that declare no namespace, in file order.
    pub entries: Seq<EntryModel>,
    /// The name of each declared namespace, by id.
    pub namespace_lookup: Map<u8, Seq<char>>,
    /// For each declared namespace, the positions in `entries` of its
    /// records, in file order.
    pub namespaces: Map<u8, Seq<int>>,
    /// The id that each namespace name stands for.
    pub name_to_ns: Map<Seq<char>, u8>,
    /// The positions in `entries` of the records whose namespace was not
    /// declared when they were found.
    pub dangling: Seq<int>,
}

/// A record is kept under the slots that it was decoded from.
pub open spec fn entry_in_page(e: EntryModel) -> bool {
    &&& e.end == e.start + e.span
    &&& 1 <= e.span <= PAGE_SLOTS - e.start
}

impl NvsModel {
    /// The store without pages, records or namespaces.
    pub open spec fn empty() -> NvsModel {
        NvsModel {
            pages: Seq::empty(),
            entries: Seq::empty(),
            namespace_lookup: Map::empty(),
            namespaces: Map::empty(),
            name_to_ns: Map::empty(),
            dangling: Seq::empty(),
        }
    }

    /// The store after a record has declared the namespace `id` under
    /// `name`. A later declaration of an id replaces the earlier one and
    /// starts the namespace's list of records afresh.
    pub open spec fn declare(self, id: u8, name: Seq<char>) -> NvsModel {
        NvsModel {
            namespace_lookup: self.namespace_lookup.insert(id, name),
            namespaces: self.namespaces.insert(id, Seq::empty()),
            name_to_ns: self.name_to_ns.insert(name, id),
            ..self
        }
    }

    /// The store after the record `e` of a namespace has been found: it
    /// joins the records, and the list of its namespace if that is declared.
    pub open spec fn append(self, e: EntryModel) -> NvsModel {
        let at = self.entries.len() as int;
        if self.namespaces.contains_key(e.ns) {
            NvsModel {
                entries: self.entries.push(e),
                namespaces: self.namespaces.insert(e.ns, self.namespaces[e.ns].push(at)),
                ..self
            }
        } else {
            NvsModel { entries: self.entries.push(e), dangling: self.dangling.push(at), ..self }
        }
    }

    /// The store after the record `e` has been found. A record of namespace
    /// 0 declares a namespace: its key is the name and its value, which must
    /// be a `U8`, the id.
    pub open spec fn record(self, e: EntryModel) -> Result<NvsModel, DecodeError> {
        if e.ns == 0 {
            match e.data {
                ValueModel::U8(id) => Ok(self.declare(id, e.key)),
                _ => Err(DecodeError::NamespaceTypeMismatch),
            }
        } else {
            Ok(self.append(e))
        }
    }

    /// What holds of every store: the sizes of its pages, the slot ranges of
    /// its records, and the agreement of its three namespace tables with
    /// each other and with the records.
    pub open spec fn well_formed(self) -> bool {
        &&& forall|i: int| 0 <= i < self.pages.len() ==> (#[trigger] self.pages[i]).well_formed()
        &&& forall|i: int|
            0 <= i < self.entries.len() ==> {
                let e = #[trigger] self.entries[i];
                entry_in_page(e) && e.ns != 0
            }
        &&& self.namespaces.dom() == self.namespace_lookup.dom()
        &&& forall|id: u8| #[trigger]
            self.namespace_lookup.contains_key(id) ==> self.name_to_ns.contains_key(
                self.namespace_lookup[id],
            )
        &&& forall|name: Seq<char>| #[trigger]
            self.name_to_ns.contains_key(name) ==> self.namespace_lookup.contains_key(
                self.name_to_ns[name],
            )
        &&& forall|id: u8, j: int|
            self.namespaces.contains_key(id) && 0 <= j < self.namespaces[id].len() ==> {
                let at = #[trigger] self.namespaces[id][j];
                0 <= at < self.entries.len() && self.entries[at].ns == id
            }
        &&& forall|j: int|
            0 <= j < self.dangling.len() ==> 0 <= #[trigger] self.dangling[j] < self.entries.len()
        &&& forall|i: int|
            0 <= i < self.entries.len() ==> self.namespace_lookup.contains_key(
                (#[trigger] self.entries[i]).ns,
            ) || self.dangling.contains(i)
    }
}

/// Taking up a record that lies within its page, and belongs to a
/// namespace unless it declares one, keeps a store well-formed.
pub proof fn lemma_record_well_formed(m: NvsModel, e: EntryModel)
    requires
        m.well_formed(),
        entry_in_page(e),
    ensures
        m.record(e) matches Ok(next) ==> next.well_formed(),
{
    if e.ns == 0 {
        if let ValueModel::U8(id) = e.data {
            let next = m.declare(id, e.key);
            assert(next.namespaces.dom() =~= next.namespace_lookup.dom());
            assert(next.well_formed());
        }
    } else {
        let next = m.append(e);
        let at = m.entries.len() as int;
        assert(next.namespaces.dom() =~= next.namespace_lookup.dom());
        assert forall|i: int|
            0 <= i < next.entries.len() implies next.namespace_lookup.contains_key(
            (#[trigger] next.entries[i]).ns,
        ) || next.dangling.contains(i) by {
            if i < at {
                assert(next.entries[i] == m.entries[i]);
                if m.dangling.contains(i) {
                    let j = choose|j: int| 0 <= j < m.dangling.len() && m.dangling[j] == i;
                    assert(next.dangling[j] == i);
                }
            } else if !m.namespaces.contains_key(e.ns) {
                assert(next.dangling[m.dangling.len() as int] == i);
            } else {
                assert(m.namespace_lookup.dom().contains(e.ns));
            }
        }
        assert(next.well_formed());
    }
}

/// A slot that the walk passes over: an empty one, and an erased one unless
/// erased records are asked for.
pub open spec fn slot_skipped(state: EntryStateBitmap, use_deleted: bool) -> bool {
    state == EntryStateBitmap::Empty || (state == EntryStateBitmap::Erased && !use_deleted)
}

/// The store after the slots of `page` from `slot` on have been walked.
pub open spec fn walk_page(
    m: NvsModel,
    page: PageModel,
    page_index: u8,
    slot: int,
    use_deleted: bool,
) -> Result<NvsModel, DecodeError>
    decreases PAGE_SLOTS - slot,
{
    if slot < 0 || slot >= PAGE_SLOTS {
        Ok(m)
    } else if slot_skipped(page.entry_state_bitmap[slot], use_deleted) {
        walk_page(m, page, page_index, slot + 1, use_deleted)
    } else {
        match entry_spec(page.data.skip(SLOT_SIZE * slot), page_index, slot as u8) {
            Err(e) => Err(e),
            Ok(e) => match m.record(e) {
                Err(e) => Err(e),
                Ok(next) => walk_page(next, page, page_index, e.end as int, use_deleted),
            },
        }
    }
}

/// The store after the pages from `from` on have been walked, page by page
/// in file order. A record's page index is its page's position, modulo 256.
pub open spec fn walk_pages(
    m: NvsModel,
    pages: Seq<PageModel>,
    from: int,
    use_deleted: bool,
) -> Result<NvsModel, DecodeError>
    decreases pages.len() - from,
{
    if from < 0 || from >= pages.len() {
        Ok(m)
    } else {
        match walk_page(m, pages[from], (from % 256) as u8, 0, use_deleted) {
            Err(e) => Err(e),
            Ok(next) => walk_pages(next, pages, from + 1, use_deleted),
        }
    }
}

/// The pages that `s` is made of, each 4096 bytes long.
pub open spec fn pages_spec(s: Seq<u8>) -> Result<Seq<PageModel>, DecodeError>
    decreases s.len(),
{
    if s.len() == 0 {
        Ok(Seq::empty())
    } else {
        match page_spec(s) {
            Err(e) => Err(e),
            Ok(first) => match pages_spec(s.skip(PAGE_SIZE as int)) {
                Err(e) => Err(e),
                Ok(others) => Ok(seq![first] + others),
            },
        }
    }
}

/// The store that the image `s` decodes to, or the reason why it does not
/// decode.
pub open spec fn nvs_spec(s: Seq<u8>, use_deleted: bool) -> Result<NvsModel, DecodeError> {
    match pages_spec(s) {
        Err(e) => Err(e),
        Ok(pages) => match walk_pages(NvsModel::empty(), pages, 0, use_deleted) {
            Err(e) => Err(e),
            Ok(m) => Ok(NvsModel { pages, ..m }),
        },
    }
}

/// The pages `done`, followed by the pages of `others` if there are any.
pub open spec fn pages_after(
    done: Seq<PageModel>,
    others: Result<Seq<PageModel>, DecodeError>,
) -> Result<Seq<PageModel>, DecodeError> {
    match others {
        Ok(pages) => Ok(done + pages),
        Err(e) => Err(e),
    }
}

/// An image that decodes is made of whole pages: its length is 4096 times
/// the number of its pages.
pub proof fn lemma_pages_len(s: Seq<u8>)
    ensures
        pages_spec(s) matches Ok(pages) ==> s.len() == PAGE_SIZE * pages.len(),
    decreases s.len(),
{
    if s.len() != 0 && page_spec(s) is Ok {
        lemma_pages_len(s.skip(PAGE_SIZE as int));
    }
}

/// The names of the declared namespaces with an id below `n`, by
/// ascending id.
pub open spec fn names_below(m: NvsModel, n: int) -> Seq<Seq<char>>
    decreases n,
{
    if n <= 0 {
        Seq::empty()
    } else if m.namespace_lookup.contains_key((n - 1) as u8) {
        names_below(m, n - 1).push(m.namespace_lookup[(n - 1) as u8])
    } else {
        names_below(m, n - 1)
    }
}

/// The records at the positions `at` of `entries`, by key. Where several
/// have the same key, the last of them stands.
pub open spec fn latest_by_key(entries: Seq<EntryModel>, at: Seq<int>) -> Map<
    Seq<char>,
    EntryModel,
>
    decreases at.len(),
{
    if at.len() == 0 {
        Map::empty()
    } else {
        latest_by_key(entries, at.drop_last()).insert(entries[at.last()].key, entries[at.last()])
    }
}

/// `list` holds each record of `by_key` once, and nothing else.
pub open spec fn lists(list: Seq<EntryModel>, by_key: Map<Seq<char>, EntryModel>) -> bool {
    &&& forall|i: int|
        0 <= i < list.len() ==> by_key.contains_key((#[trigger] list[i]).key) && by_key[list[i].key]
            == list[i]
    &&& forall|i: int, j: int|
        0 <= i < j < list.len() ==> (#[trigger] list[i]).key != (#[trigger] list[j]).key
    &&& forall|key: Seq<char>| #[trigger]
        by_key.contains_key(key) ==> exists|i: int|
            0 <= i < list.len() && (#[trigger] list[i]).key == key
}

impl NvsModel {
    /// The names of the declared namespaces, by ascending id.
    pub open spec fn names(self) -> Seq<Seq<char>> {
        names_below(self, NAMESPACE_IDS as int)
    }

    /// The records of the namespace called `name`, by key, if there is such
    /// a namespace.
    pub open spec fn namespace(self, name: Seq<char>) -> Option<Map<Seq<char>, EntryModel>> {
        if self.name_to_ns.contains_key(name) && self.namespaces.contains_key(
            self.name_to_ns[name],
        ) {
            Some(latest_by_key(self.entries, self.namespaces[self.name_to_ns[name]]))
        } else {
            None
        }
    }
}

/// The position `p` of `at` is the last one with its record's key.
pub open spec fn last_with_key(entries: Seq<EntryModel>, at: Seq<int>, p: int) -> bool {
    &&& 0 <= p < at.len()
    &&& forall|q: int| p < q < at.len() ==> entries[#[trigger] at[q]].key != entries[at[p]].key
}

/// The positions below `n` of `at` that are the last with their record's
/// key, in ascending order.
pub open spec fn kept_positions(entries: Seq<EntryModel>, at: Seq<int>, n: int) -> Seq<int>
    decreases n,
{
    if n <= 0 {
        Seq::empty()
    } else if last_with_key(entries, at, n - 1) {
        kept_positions(entries, at, n - 1).push(n - 1)
    } else {
        kept_positions(entries, at, n - 1)
    }
}

/// The records at the positions `at` of `entries`, without those that a
/// later one of them replaces because it has the same key. The order is
/// that of `at`.
pub open spec fn latest_records(entries: Seq<EntryModel>, at: Seq<int>) -> Seq<EntryModel> {
    kept_positions(entries, at, at.len() as int).map_values(|p: int| entries[at[p]])
}

/// The record that is the last one with its key is the one kept under that
/// key.
pub proof fn lemma_latest_found(entries: Seq<EntryModel>, at: Seq<int>, p: int)
    requires
        last_with_key(entries, at, p),
    ensures
        latest_by_key(entries, at).contains_key(entries[at[p]].key),
        latest_by_key(entries, at)[entries[at[p]].key] == entries[at[p]],
    decreases at.len(),
{
    if p < at.len() - 1 {
        let rest = at.drop_last();
        assert forall|q: int| p < q < rest.len() implies entries[#[trigger] rest[q]].key
            != entries[rest[p]].key by {
            assert(rest[q] == at[q]);
        }
        lemma_latest_found(entries, rest, p);
        assert(entries[at[at.len() - 1]].key != entries[at[p]].key);
    }
}

/// Every key that is kept is the key of a record that is the last one with
/// it.
pub proof fn lemma_latest_key(entries: Seq<EntryModel>, at: Seq<int>, key: Seq<char>)
    requires
        latest_by_key(entries, at).contains_key(key),
    ensures
        exists|p: int| #[trigger] last_with_key(entries, at, p) && entries[at[p]].key == key,
    decreases at.len(),
{
    if at.len() > 0 {
        if entries[at.last()].key == key {
            assert(last_with_key(entries, at, at.len() - 1));
        } else {
            let rest = at.drop_last();
            lemma_latest_key(entries, rest, key);
            let p = choose|p: int| #[trigger]
                last_with_key(entries, rest, p) && entries[rest[p]].key == key;
            assert forall|q: int| p < q < at.len() implies entries[#[trigger] at[q]].key
                != entries[at[p]].key by {
                if q < rest.len() {
                    assert(rest[q] == at[q]);
                }
            }
            assert(last_with_key(entries, at, p));
        }
    }
}

/// The kept positions below `n` are exactly the positions below `n` that
/// are the last with their key, and they ascend.
pub proof fn lemma_kept_positions(entries: Seq<EntryModel>, at: Seq<int>, n: int)
    requires
        0 <= n <= at.len(),
    ensures
        forall|i: int|
            0 <= i < kept_positions(entries, at, n).len() ==> {
                let p = #[trigger] kept_positions(entries, at, n)[i];
                0 <= p < n && last_with_key(entries, at, p)
            },
        forall|i: int, j: int|
            0 <= i < j < kept_positions(entries, at, n).len() ==> #[trigger] kept_positions(
                entries,
                at,
                n,
            )[i] < #[trigger] kept_positions(entries, at, n)[j],
        forall|p: int|
            0 <= p < n && #[trigger] last_with_key(entries, at, p) ==> kept_positions(
                entries,
                at,
                n,
            ).contains(p),
    decreases n,
{
    if n > 0 {
        lemma_kept_positions(entries, at, n - 1);
        let before = kept_positions(entries, at, n - 1);
        let kept = kept_positions(entries, at, n);
        assert forall|p: int|
            0 <= p < n && #[trigger] last_with_key(entries, at, p) implies kept.contains(p) by {
            if p < n - 1 {
                let i = choose|i: int| 0 <= i < before.len() && before[i] == p;
                assert(kept[i] == p);
            } else {
                assert(kept[before.len() as int] == p);
            }
        }
    }
}

/// The records that are not replaced are the records kept by key, each
/// listed once.
pub proof fn lemma_latest_records(entries: Seq<EntryModel>, at: Seq<int>)
    ensures
        lists(latest_records(entries, at), latest_by_key(entries, at)),
{
    let kept = kept_positions(entries, at, at.len() as int);
    let list = latest_records(entries, at);
    let by_key = latest_by_key(entries, at);
    lemma_kept_positions(entries, at, at.len() as int);
    assert forall|i: int| 0 <= i < list.len() implies by_key.contains_key((#[trigger] list[i]).key)
        && by_key[list[i].key] == list[i] by {
        lemma_latest_found(entries, at, kept[i]);
    }
    assert forall|i: int, j: int| 0 <= i < j < list.len() implies (#[trigger] list[i]).key != (
    #[trigger] list[j]).key by {
        assert(kept[i] < kept[j]);
        assert(last_with_key(entries, at, kept[i]));
    }
    assert forall|key: Seq<char>| #[trigger] by_key.contains_key(key) implies exists|i: int|
        0 <= i < list.len() && (#[trigger] list[i]).key == key by {
        lemma_latest_key(entries, at, key);
        let w = choose|w: int| #[trigger]
            last_with_key(entries, at, w) && entries[at[w]].key == key;
        let i = choose|i: int| 0 <= i < kept.len() && kept[i] == w;
        assert(list[i].key == key);
    }
}

/// Every listed name is the name of a declared namespace.
pub proof fn lemma_names_declared(m: NvsModel, n: int, i: int)
    requires
        0 <= n <= NAMESPACE_IDS,
        0 <= i < names_below(m, n).len(),
    ensures
        exists|id: u8| #[trigger]
            m.namespace_lookup.contains_key(id) && m.namespace_lookup[id] == names_below(m, n)[i],
    decreases n,
{
    let last = (n - 1) as u8;
    if m.namespace_lookup.contains_key(last) {
        if i == names_below(m, n).len() - 1 {
            assert(m.namespace_lookup.contains_key(last) && m.namespace_lookup[last]
                == names_below(m, n)[i]);
        } else {
            lemma_names_declared(m, n - 1, i);
        }
    } else {
        lemma_names_declared(m, n - 1, i);
    }
}

/// Every name that a store lists among its namespaces is the name of a
/// namespace that can be looked up.
pub proof fn lemma_listed_namespace_found(m: NvsModel, i: int)
    requires
        m.well_formed(),
        0 <= i < m.names().len(),
    ensures
        m.namespace(m.names()[i]) is Some,
{
    lemma_names_declared(m, NAMESPACE_IDS as int, i);
    let id = choose|id: u8| #[trigger]
        m.namespace_lookup.contains_key(id) && m.namespace_lookup[id] == m.names()[i];
    let name = m.names()[i];
    assert(m.name_to_ns.contains_key(name));
    assert(m.namespace_lookup.dom().contains(m.name_to_ns[name]));
}

/// The reports of the records at the positions `at`: for each, that its
/// namespace was not declared.
pub open spec fn dangling_reports(entries: Seq<EntryModel>, at: Seq<int>) -> Seq<DecodeError> {
    Seq::new(at.len(), |j: int| DecodeError::DanglingNamespace(entries[at[j]].ns))
}

} // verus!
