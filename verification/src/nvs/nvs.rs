//! The store: all pages of an image, the records found on them in file
//! order, and the namespaces that the records declare.

use crate::error::DecodeError;
use crate::nvs::event::{Entry, EntryModel, EntryType};
use crate::nvs::model::{
    dangling_reports, kept_positions, last_with_key, latest_by_key, latest_records,
    lemma_latest_records, lemma_record_well_formed, lists, names_below, nvs_spec, pages_after,
    pages_spec, walk_page, walk_pages, NvsModel, NAMESPACE_IDS,
};
use crate::nvs::page::{EntryStateBitmap, Page, PageModel, PAGE_SIZE, PAGE_SLOTS, SLOT_SIZE};
use crate::nvs::parsers::{entry, page};
use std::collections::HashMap;
use vstd::prelude::*;
use vstd::slice::slice_subrange;

verus! {

broadcast use vstd::std_specs::hash::group_hash_axioms;

/// The models of a sequence of pages.
pub open spec fn page_models(pages: Seq<Page>) -> Seq<PageModel> {
    Seq::new(pages.len(), |i: int| pages[i]@)
}

/// The models of a sequence of records.
pub open spec fn entry_models(entries: Seq<Entry>) -> Seq<EntryModel> {
    Seq::new(entries.len(), |i: int| entries[i]@)
}

/// The models of a sequence of borrowed records.
pub open spec fn entry_ref_models(entries: Seq<&Entry>) -> Seq<EntryModel> {
    Seq::new(entries.len(), |i: int| entries[i]@)
}

/// What a sequence of borrowed strings says.
pub open spec fn str_views(names: Seq<&str>) -> Seq<Seq<char>> {
    Seq::new(names.len(), |i: int| names[i]@)
}

/// The map that a list of pairs stands for when a later pair replaces an
/// earlier one with the same name.
pub open spec fn assoc_map(list: Seq<(String, u8)>) -> Map<Seq<char>, u8>
    decreases list.len(),
{
    if list.len() == 0 {
        Map::empty()
    } else {
        assoc_map(list.drop_last()).insert(list.last().0@, list.last().1)
    }
}

/// The last pair of a list with a given name gives the id of that name.
pub proof fn lemma_assoc_found(list: Seq<(String, u8)>, name: Seq<char>, i: int)
    requires
        0 <= i < list.len(),
        list[i].0@ == name,
        forall|j: int| i < j < list.len() ==> (#[trigger] list[j]).0@ != name,
    ensures
        assoc_map(list).contains_key(name),
        assoc_map(list)[name] == list[i].1,
    decreases list.len(),
{
    if i < list.len() - 1 {
        let rest = list.drop_last();
        assert forall|j: int| i < j < rest.len() implies (#[trigger] rest[j]).0@ != name by {
            assert(rest[j] == list[j]);
        }
        lemma_assoc_found(rest, name, i);
        assert(list[list.len() - 1].0@ != name);
    }
}

/// A name that no pair of a list has stands for no id.
pub proof fn lemma_assoc_absent(list: Seq<(String, u8)>, name: Seq<char>)
    requires
        forall|j: int| 0 <= j < list.len() ==> (#[trigger] list[j]).0@ != name,
    ensures
        !assoc_map(list).contains_key(name),
    decreases list.len(),
{
    if list.len() > 0 {
        let rest = list.drop_last();
        assert forall|j: int| 0 <= j < rest.len() implies (#[trigger] rest[j]).0@ != name by {
            assert(rest[j] == list[j]);
        }
        lemma_assoc_absent(rest, name);
        assert(list[list.len() - 1].0@ != name);
    }
}

/// The records and namespace tables of a store.
#[derive(Debug)]
struct Tables {
    entries: Vec<Entry>,
    namespace_lookup: HashMap<u8, String>,
    namespaces: HashMap<u8, Vec<usize>>,
    name_to_ns: Vec<(String, u8)>,
    dangling: Vec<usize>,
}

impl Tables {
    /// What the tables hold. The pages are kept beside them.
    spec fn model(&self) -> NvsModel {
        NvsModel {
            pages: Seq::empty(),
            entries: Seq::new(self.entries@.len(), |i: int| self.entries@[i]@),
            namespace_lookup: Map::new(
                |id: u8| self.namespace_lookup@.contains_key(id),
                |id: u8| self.namespace_lookup@[id]@,
            ),
            namespaces: Map::new(
                |id: u8| self.namespaces@.contains_key(id),
                |id: u8| self.namespaces@[id]@.map_values(|at: usize| at as int),
            ),
            name_to_ns: assoc_map(self.name_to_ns@),
            dangling: self.dangling@.map_values(|at: usize| at as int),
        }
    }

    /// Tables without records or namespaces.
    fn new() -> (t: Tables)
        ensures
            t.model() == NvsModel::empty(),
    {
        let t = Tables {
            entries: Vec::new(),
            namespace_lookup: HashMap::new(),
            namespaces: HashMap::new(),
            name_to_ns: Vec::new(),
            dangling: Vec::new(),
        };
        proof {
            let m = t.model();
            assert(m.entries =~= Seq::empty());
            assert(m.namespace_lookup =~= Map::empty());
            assert(m.namespaces =~= Map::empty());
            assert(m.dangling =~= Seq::empty());
        }
        t
    }

    /// Enters the namespace `id` under `name`, with no records yet.
    fn declare(&mut self, id: u8, name: &str)
        ensures
            final(self).model() == old(self).model().declare(id, name@),
    {
        self.namespace_lookup.insert(id, name.to_owned());
        self.namespaces.insert(id, Vec::new());
        self.name_to_ns.push((name.to_owned(), id));
        proof {
            let before = old(self).model();
            let after = self.model();
            assert(after.entries =~= before.entries);
            assert(after.namespace_lookup =~= before.namespace_lookup.insert(id, name@));
            assert(self.namespaces@[id]@.map_values(|at: usize| at as int) =~= Seq::<
                int,
            >::empty());
            assert(after.namespaces =~= before.namespaces.insert(id, Seq::empty()));
            assert(self.name_to_ns@.drop_last() =~= old(self).name_to_ns@);
            assert(after.name_to_ns =~= before.name_to_ns.insert(name@, id));
        }
    }

    /// Adds a record of a namespace to the records, and to the list of its
    /// namespace if that is declared.
    fn append(&mut self, e: Entry)
        ensures
            final(self).model() == old(self).model().append(e@),
    {
        let at = self.entries.len();
        let ns = e.ns();
        self.entries.push(e);
        match self.namespaces.remove(&ns) {
            Some(mut list) => {
                let ghost listed = list@;
                list.push(at);
                self.namespaces.insert(ns, list);
                proof {
                    let before = old(self).model();
                    let after = self.model();
                    assert(self.namespaces@[ns]@.map_values(|at: usize| at as int)
                        =~= listed.map_values(|at: usize| at as int).push(at as int));
                    assert(after.namespaces =~= before.namespaces.insert(
                        ns,
                        before.namespaces[ns].push(at as int),
                    ));
                    assert(after.dangling =~= before.dangling);
                }
            },
            None => {
                // The record's namespace is not declared: it stays out of
                // the namespace lists and is reported.
                self.dangling.push(at);
                proof {
                    let before = old(self).model();
                    let after = self.model();
                    assert(self.namespaces@ =~= old(self).namespaces@);
                    assert(after.namespaces =~= before.namespaces);
                    assert(after.dangling =~= before.dangling.push(at as int));
                }
            },
        }
        proof {
            let before = old(self).model();
            let after = self.model();
            assert(after.entries =~= before.entries.push(e@));
            assert(after.namespace_lookup =~= before.namespace_lookup);
        }
    }

    /// Takes up a decoded record: a declaration of a namespace goes into the
    /// namespace tables, any other record into the list of records.
    fn record(&mut self, e: Entry) -> (r: Result<(), DecodeError>)
        ensures
            match r {
                Ok(()) => old(self).model().record(e@) == Ok::<NvsModel, DecodeError>(
                    final(self).model(),
                ),
                Err(err) => old(self).model().record(e@) == Err::<NvsModel, DecodeError>(err)
                    && final(self).model() == old(self).model(),
            },
    {
        if e.ns() == 0 {
            match e.data() {
                EntryType::U8(ns_id) => {
                    self.declare(*ns_id, e.key());
                    Ok(())
                },
                _ => Err(DecodeError::NamespaceTypeMismatch),
            }
        } else {
            self.append(e);
            Ok(())
        }
    }

    /// A copy of the tables.
    fn copy(&self) -> (r: Self)
        ensures
            r.model() == self.model(),
    {
        let mut entries: Vec<Entry> = Vec::new();
        let mut i: usize = 0;
        while i < self.entries.len()
            invariant
                i <= self.entries@.len(),
                entries@.len() == i,
                forall|j: int| 0 <= j < i ==> (#[trigger] entries@[j])@ == self.entries@[j]@,
            decreases self.entries@.len() - i,
        {
            entries.push(self.entries[i].clone());
            i += 1;
        }
        let mut name_to_ns: Vec<(String, u8)> = Vec::new();
        let mut i: usize = 0;
        while i < self.name_to_ns.len()
            invariant
                i <= self.name_to_ns@.len(),
                name_to_ns@.len() == i,
                forall|j: int| 0 <= j < i ==> #[trigger] name_to_ns@[j] == self.name_to_ns@[j],
            decreases self.name_to_ns@.len() - i,
        {
            name_to_ns.push((self.name_to_ns[i].0.clone(), self.name_to_ns[i].1));
            i += 1;
        }
        let dangling = self.dangling.clone();
        assert(dangling@ =~= self.dangling@);
        assert(name_to_ns@ =~= self.name_to_ns@);
        let r = Tables {
            entries,
            namespace_lookup: self.namespace_lookup.clone(),
            namespaces: self.namespaces.clone(),
            name_to_ns,
            dangling,
        };
        proof {
            let ours = self.model();
            let theirs = r.model();
            assert(theirs.entries =~= ours.entries);
            assert(theirs.namespace_lookup =~= ours.namespace_lookup);
            assert(theirs.namespaces =~= ours.namespaces);
        }
        r
    }
}

/// Walks the slots of one page and takes up the records found in them.
fn walk(tables: &mut Tables, page: &Page, page_index: u8, use_deleted: bool) -> (r: Result<
    (),
    DecodeError,
>)
    requires
        old(tables).model().well_formed(),
    ensures
        match r {
            Ok(()) => {
                &&& walk_page(old(tables).model(), page@, page_index, 0, use_deleted) == Ok::<
                    NvsModel,
                    DecodeError,
                >(final(tables).model())
                &&& final(tables).model().well_formed()
            },
            Err(e) => walk_page(old(tables).model(), page@, page_index, 0, use_deleted) == Err::<
                NvsModel,
                DecodeError,
            >(e),
        },
{
    let ghost first = tables.model();
    let bitmaps = page.entry_state_bitmap();
    let mut page_data = page.data();
    let mut start: usize = 0;
    while start < PAGE_SLOTS
        invariant
            start <= PAGE_SLOTS,
            first == old(tables).model(),
            bitmaps@ == page@.entry_state_bitmap,
            bitmaps@.len() == 128,
            page@.data.len() == 4032,
            page_data@ == page@.data.skip(SLOT_SIZE * start),
            tables.model().well_formed(),
            walk_page(first, page@, page_index, 0, use_deleted) == walk_page(
                tables.model(),
                page@,
                page_index,
                start as int,
                use_deleted,
            ),
        decreases PAGE_SLOTS - start,
    {
        if bitmaps[start] == EntryStateBitmap::Empty || (bitmaps[start] == EntryStateBitmap::Erased
            && !use_deleted) {
            page_data = slice_subrange(page_data, SLOT_SIZE, page_data.len());
            assert(page_data@ =~= page@.data.skip(SLOT_SIZE * (start + 1)));
            start += 1;
        } else {
            let (remainder, e) = match entry(page_data, page_index, start as u8) {
                Ok(x) => x,
                Err(err) => {
                    return Err(err);
                },
            };
            assert(remainder@ =~= page@.data.skip(SLOT_SIZE * (start + e@.span)));
            page_data = remainder;
            start = e.end() as usize;
            proof {
                lemma_record_well_formed(tables.model(), e@);
            }
            match tables.record(e) {
                Ok(()) => {},
                Err(err) => {
                    return Err(err);
                },
            }
        }
    }
    Ok(())
}

/// A decoded NVS image.
#[derive(Debug)]
pub struct Nvs {
    pages: Vec<Page>,
    tables: Tables,
    use_deleted: bool,
}

impl View for Nvs {
    type V = NvsModel;

    closed spec fn view(&self) -> NvsModel {
        NvsModel { pages: page_models(self.pages@), ..self.tables.model() }
    }
}

impl Clone for Nvs {
    fn clone(&self) -> (r: Self)
        ensures
            r@ == self@,
    {
        proof {
            use_type_invariant(self);
        }
        let mut pages: Vec<Page> = Vec::new();
        let mut i: usize = 0;
        while i < self.pages.len()
            invariant
                i <= self.pages@.len(),
                pages@.len() == i,
                forall|j: int| 0 <= j < i ==> (#[trigger] pages@[j])@ == self.pages@[j]@,
            decreases self.pages@.len() - i,
        {
            pages.push(self.pages[i].clone());
            i += 1;
        }
        assert(page_models(pages@) =~= page_models(self.pages@));
        Nvs { pages, tables: self.tables.copy(), use_deleted: self.use_deleted }
    }
}

impl Nvs {
    #[verifier::type_invariant]
    spec fn valid(&self) -> bool {
        self@.well_formed()
    }

    /// Decodes the image `data`: all of its pages, then the records in the
    /// written slots of each page in file order, and with `use_deleted` those
    /// in the erased slots too.
    ///
    /// Any error of a page or of a record fails the whole decode. A record
    /// whose namespace is not declared does not: it is kept, and reported by
    /// `dangling`. A record's page index is the position of its page in the
    /// image, modulo 256.
    pub fn new(data: &[u8], use_deleted: bool) -> (r: Result<Nvs, DecodeError>)
        ensures
            match r {
                Ok(nvs) => {
                    &&& nvs_spec(data@, use_deleted) == Ok::<NvsModel, DecodeError>(nvs@)
                    &&& nvs@.well_formed()
                    &&& data@.len() == PAGE_SIZE * nvs@.pages.len()
                },
                Err(e) => nvs_spec(data@, use_deleted) == Err::<NvsModel, DecodeError>(e),
            },
    {
        let mut pages: Vec<Page> = Vec::new();
        let mut cur = data;
        while cur.len() > 0
            invariant
                pages_spec(data@) == pages_after(page_models(pages@), pages_spec(cur@)),
                data@.len() == PAGE_SIZE * pages@.len() + cur@.len(),
                forall|i: int| 0 <= i < pages@.len() ==> (#[trigger] pages@[i])@.well_formed(),
            decreases cur@.len(),
        {
            let ghost done = page_models(pages@);
            match page(cur) {
                Ok((rest, p)) => {
                    proof {
                        let others = pages_spec(rest@);
                        assert(pages_spec(cur@) == pages_after(seq![p@], others));
                        assert(page_models(pages@.push(p)) =~= done + seq![p@]);
                        if let Ok(ps) = others {
                            assert(done + (seq![p@] + ps) =~= (done + seq![p@]) + ps);
                        }
                    }
                    pages.push(p);
                    cur = rest;
                },
                Err(e) => {
                    return Err(e);
                },
            }
        }
        let ghost models = page_models(pages@);
        assert(models + Seq::<PageModel>::empty() =~= models);
        let mut tables = Tables::new();
        let mut i: usize = 0;
        while i < pages.len()
            invariant
                i <= pages@.len(),
                models == page_models(pages@),
                pages_spec(data@) == Ok::<Seq<PageModel>, DecodeError>(models),
                    tables.model().well_formed(),
                walk_pages(NvsModel::empty(), models, 0, use_deleted) == walk_pages(
                    tables.model(),
                    models,
                    i as int,
                    use_deleted,
                ),
            decreases pages@.len() - i,
        {
            match walk(&mut tables, &pages[i], (i % 256) as u8, use_deleted) {
                Ok(()) => {},
                Err(e) => {
                    return Err(e);
                },
            }
            i += 1;
        }
        Ok(Nvs { pages, tables, use_deleted })
    }

    /// The records that declare no namespace, in file order.
    pub fn entries(&self) -> (r: &[Entry])
        ensures
            entry_models(r@) == self@.entries,
            self@.well_formed(),
    {
        proof {
            use_type_invariant(self);
            assert(entry_models(self.tables.entries@) =~= self@.entries);
        }
        self.tables.entries.as_slice()
    }

    /// The pages, in file order.
    pub fn pages(&self) -> (r: &[Page])
        ensures
            page_models(r@) == self@.pages,
            self@.well_formed(),
    {
        proof {
            use_type_invariant(self);
        }
        self.pages.as_slice()
    }

    /// The names of the declared namespaces, by ascending id.
    pub fn namespaces(&self) -> (r: Vec<&str>)
        ensures
            str_views(r@) == self@.names(),
            self@.well_formed(),
    {
        proof {
            use_type_invariant(self);
        }
        let mut names: Vec<&str> = Vec::new();
        let mut id: usize = 0;
        while id < NAMESPACE_IDS
            invariant
                id <= NAMESPACE_IDS,
                str_views(names@) == names_below(self@, id as int),
            decreases NAMESPACE_IDS - id,
        {
            let ghost before = str_views(names@);
            match self.tables.namespace_lookup.get(&(id as u8)) {
                Some(name) => {
                    names.push(name.as_str());
                    assert(str_views(names@) =~= before.push(name@));
                },
                None => {},
            }
            id += 1;
        }
        names
    }

    /// The id that the namespace name `ns` stands for, if any: the id of the
    /// last declaration under that name.
    fn id_of(&self, ns: &str) -> (r: Option<u8>)
        ensures
            match r {
                Some(id) => self@.name_to_ns.contains_key(ns@) && self@.name_to_ns[ns@] == id,
                None => !self@.name_to_ns.contains_key(ns@),
            },
    {
        let wanted = ns.to_owned();
        let ghost list = self.tables.name_to_ns@;
        let mut i = self.tables.name_to_ns.len();
        while i > 0
            invariant
                i <= list.len(),
                list == self.tables.name_to_ns@,
                wanted@ == ns@,
                forall|j: int| i <= j < list.len() ==> (#[trigger] list[j]).0@ != ns@,
            decreases i,
        {
            i -= 1;
            if self.tables.name_to_ns[i].0 == wanted {
                proof {
                    lemma_assoc_found(list, ns@, i as int);
                }
                return Some(self.tables.name_to_ns[i].1);
            }
        }
        proof {
            lemma_assoc_absent(list, ns@);
        }
        None
    }

    /// The records of the namespace called `ns`, one for each key: where
    /// several records of the namespace have the same key, the last one in
    /// file order. The records come in file order. There is no result when
    /// no namespace is called `ns`.
    pub fn namespace(&self, ns: &str) -> (r: Option<Vec<&Entry>>)
        ensures
            match r {
                Some(list) => {
                    &&& self@.namespace(ns@) matches Some(by_key)
                    &&& lists(entry_ref_models(list@), by_key)
                    &&& entry_ref_models(list@) == latest_records(
                        self@.entries,
                        self@.namespaces[self@.name_to_ns[ns@]],
                    )
                },
                None => self@.namespace(ns@) is None,
            },
            self@.well_formed(),
    {
        proof {
            use_type_invariant(self);
        }
        let id = match self.id_of(ns) {
            Some(id) => id,
            None => {
                return None;
            },
        };
        assert(self@.namespace_lookup.contains_key(id));
        let entry_ids = match self.tables.namespaces.get(&id) {
            Some(entry_ids) => entry_ids,
            None => {
                return None;
            },
        };
        let ghost entries = self@.entries;
        let ghost at = entry_ids@.map_values(|at: usize| at as int);
        assert(self@.namespace(ns@) == Some(latest_by_key(entries, at)));
        let mut namespace: Vec<&Entry> = Vec::new();
        let mut p: usize = 0;
        while p < entry_ids.len()
            invariant
                p <= entry_ids@.len(),
                at == entry_ids@.map_values(|at: usize| at as int),
                entries == self@.entries,
                entries.len() == self.tables.entries@.len(),
                forall|j: int| 0 <= j < at.len() ==> 0 <= #[trigger] at[j] < entries.len(),
                forall|j: int|
                    0 <= j < entries.len() ==> #[trigger] entries[j] == self.tables.entries@[j]@,
                entry_ref_models(namespace@) == kept_positions(entries, at, p as int).map_values(
                    |p: int| entries[at[p]],
                ),
            decreases entry_ids@.len() - p,
        {
            let entry = &self.tables.entries[entry_ids[p]];
            let mut q: usize = p + 1;
            let mut last = true;
            while q < entry_ids.len() && last
                invariant
                    p < q <= entry_ids@.len(),
                    at == entry_ids@.map_values(|at: usize| at as int),
                    entries.len() == self.tables.entries@.len(),
                    forall|j: int| 0 <= j < at.len() ==> 0 <= #[trigger] at[j] < entries.len(),
                    forall|j: int|
                        0 <= j < entries.len() ==> #[trigger] entries[j]
                            == self.tables.entries@[j]@,
                    entry@ == entries[at[p as int]],
                    last ==> forall|j: int|
                        p < j < q ==> entries[#[trigger] at[j]].key != entries[at[p as int]].key,
                    !last ==> !last_with_key(entries, at, p as int),
                decreases entry_ids@.len() - q + (if last { 1int } else { 0int }),
            {
                assert(0 <= at[q as int] < entries.len());
                if self.tables.entries[entry_ids[q]].same_key(entry) {
                    last = false;
                } else {
                    q += 1;
                }
            }
            let ghost before = entry_ref_models(namespace@);
            if last {
                namespace.push(entry);
                assert(entry_ref_models(namespace@) =~= before.push(entry@));
            }
            assert(entry_ref_models(namespace@) =~= kept_positions(
                entries,
                at,
                p + 1,
            ).map_values(|p: int| entries[at[p]]));
            p += 1;
        }
        proof {
            lemma_latest_records(entries, at);
        }
        Some(namespace)
    }

    /// The positions in `entries` of the records whose namespace was not
    /// declared when they were found, in file order.
    pub fn orphans(&self) -> (r: &[usize])
        ensures
            r@.map_values(|at: usize| at as int) == self@.dangling,
            forall|j: int| 0 <= j < r@.len() ==> #[trigger] r@[j] < self@.entries.len(),
            self@.well_formed(),
    {
        proof {
            use_type_invariant(self);
            assert forall|j: int| 0 <= j < self.tables.dangling@.len() implies #[trigger]
                self.tables.dangling@[j] < self@.entries.len() by {
                assert(self@.dangling[j] == self.tables.dangling@[j]);
            }
        }
        self.tables.dangling.as_slice()
    }

    /// One report for each record whose namespace was not declared when the
    /// record was found, in file order. Every record of the store either
    /// belongs to a declared namespace or is reported here.
    pub fn dangling(&self) -> (r: Vec<DecodeError>)
        ensures
            r@ == dangling_reports(self@.entries, self@.dangling),
            forall|i: int|
                0 <= i < self@.entries.len() ==> self@.namespace_lookup.contains_key(
                    (#[trigger] self@.entries[i]).ns,
                ) || r@.contains(DecodeError::DanglingNamespace(self@.entries[i].ns)),
            self@.well_formed(),
    {
        proof {
            use_type_invariant(self);
        }
        let ghost wanted = dangling_reports(self@.entries, self@.dangling);
        let mut reports: Vec<DecodeError> = Vec::new();
        let mut j: usize = 0;
        while j < self.tables.dangling.len()
            invariant
                j <= self.tables.dangling@.len(),
                self@.well_formed(),
                wanted == dangling_reports(self@.entries, self@.dangling),
                reports@ == wanted.take(j as int),
            decreases self.tables.dangling@.len() - j,
        {
            let at = self.tables.dangling[j];
            assert(self@.dangling[j as int] == at);
            reports.push(DecodeError::DanglingNamespace(self.tables.entries[at].ns()));
            assert(reports@ =~= wanted.take(j + 1));
            j += 1;
        }
        proof {
            assert(reports@ =~= wanted);
            assert forall|i: int|
                0 <= i < self@.entries.len() implies self@.namespace_lookup.contains_key(
                (#[trigger] self@.entries[i]).ns,
            ) || reports@.contains(DecodeError::DanglingNamespace(self@.entries[i].ns)) by {
                if self@.dangling.contains(i) {
                    let k = choose|k: int| 0 <= k < self@.dangling.len() && self@.dangling[k] == i;
                    assert(wanted[k] == DecodeError::DanglingNamespace(self@.entries[i].ns));
                }
            }
        }
        reports
    }
}

} // verus!
