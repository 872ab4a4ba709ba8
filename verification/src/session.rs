//! The documents open in a session, by identifier.
use vstd::prelude::*;

use crate::document::{is_new_document, Document, DocumentModel};
use crate::error::RasaError;
use crate::ids::{uuid_string, uuid_text};
use crate::geometry::Size;

verus! {

/// The message of the error for a document that is not open.
pub open spec fn not_found_message(id: u128) -> Seq<char> {
    "document not found: "@ + uuid_text(id)
}

/// Identifiers with their document models, in the order they are kept.
pub open spec fn entry_models(v: Seq<(u128, Document)>) -> Seq<(u128, DocumentModel)> {
    Seq::new(v.len(), |i: int| (v[i].0, v[i].1@))
}

/// The map from identifier to document that entries stand for, later entries
/// taking the place of earlier ones with the same identifier.
pub open spec fn entries_map(s: Seq<(u128, DocumentModel)>) -> Map<u128, DocumentModel>
    decreases s.len(),
{
    if s.len() == 0 {
        Map::empty()
    } else {
        entries_map(s.drop_last()).insert(s.last().0, s.last().1)
    }
}

/// No identifier occurs twice.
pub open spec fn keys_distinct(s: Seq<(u128, DocumentModel)>) -> bool {
    forall|i: int, j: int| 0 <= i < j < s.len() ==> s[i].0 != s[j].0
}

/// What an entry of the listing of open documents holds for `d`.
pub open spec fn listed(d: DocumentModel) -> (u128, Seq<char>, u32, u32) {
    (d.id, d.name, d.size.width, d.size.height)
}

proof fn lemma_entries_map(s: Seq<(u128, DocumentModel)>)
    requires
        keys_distinct(s),
    ensures
        forall|k: u128| #[trigger]
            entries_map(s).contains_key(k) <==> exists|i: int| 0 <= i < s.len() && s[i].0 == k,
        forall|i: int| 0 <= i < s.len() ==> #[trigger] entries_map(s)[s[i].0] == s[i].1,
        entries_map(s).dom().finite(),
        entries_map(s).dom().len() == s.len(),
    decreases s.len(),
{
    if s.len() > 0 {
        let t = s.drop_last();
        lemma_entries_map(t);
        assert forall|k: u128| #[trigger]
            entries_map(s).contains_key(k) <==> exists|i: int| 0 <= i < s.len() && s[i].0 == k by {
            if entries_map(t).contains_key(k) {
                let i = choose|i: int| 0 <= i < t.len() && t[i].0 == k;
                assert(s[i].0 == k);
            }
            if exists|i: int| 0 <= i < s.len() && s[i].0 == k {
                let i = choose|i: int| 0 <= i < s.len() && s[i].0 == k;
                if i < t.len() {
                    assert(t[i].0 == k);
                }
            }
        }
        assert(!entries_map(t).contains_key(s.last().0)) by {
            if entries_map(t).contains_key(s.last().0) {
                let i = choose|i: int| 0 <= i < t.len() && t[i].0 == s.last().0;
                assert(s[i].0 == s[s.len() - 1].0);
            }
        }
        assert forall|i: int| 0 <= i < s.len() implies #[trigger] entries_map(s)[s[i].0] == s[i].1 by {
            if i < t.len() {
                assert(t[i] == s[i]);
                assert(s[i].0 != s.last().0);
            }
        }
    }
}

proof fn lemma_entries_map_update(s: Seq<(u128, DocumentModel)>, i: int, d: DocumentModel)
    requires
        keys_distinct(s),
        0 <= i < s.len(),
    ensures
        keys_distinct(s.update(i, (s[i].0, d))),
        entries_map(s.update(i, (s[i].0, d))) == entries_map(s).insert(s[i].0, d),
    decreases s.len(),
{
    let u = s.update(i, (s[i].0, d));
    if i == s.len() - 1 {
        assert(u.drop_last() =~= s.drop_last());
    } else {
        let t = s.drop_last();
        lemma_entries_map_update(t, i, d);
        assert(u.drop_last() =~= t.update(i, (t[i].0, d)));
        assert(s.last().0 != s[i].0);
        assert(entries_map(u) =~= entries_map(s).insert(s[i].0, d));
    }
}

proof fn lemma_entries_map_remove(s: Seq<(u128, DocumentModel)>, i: int)
    requires
        keys_distinct(s),
        0 <= i < s.len(),
    ensures
        keys_distinct(s.remove(i)),
        entries_map(s.remove(i)) == entries_map(s).remove(s[i].0),
    decreases s.len(),
{
    let r = s.remove(i);
    if i == s.len() - 1 {
        assert(r =~= s.drop_last());
        lemma_entries_map(s.drop_last());
        assert(!entries_map(s.drop_last()).contains_key(s[i].0)) by {
            if entries_map(s.drop_last()).contains_key(s[i].0) {
                let j = choose|j: int| 0 <= j < s.drop_last().len() && s.drop_last()[j].0 == s[i].0;
                assert(s[j].0 == s[i].0);
            }
        }
        assert(entries_map(r) =~= entries_map(s).remove(s[i].0));
    } else {
        let t = s.drop_last();
        lemma_entries_map_remove(t, i);
        assert(r.drop_last() =~= t.remove(i));
        assert(r.last() == s.last());
        assert(s.last().0 != s[i].0);
        assert(entries_map(r) =~= entries_map(s).remove(s[i].0));
    }
}

/// The documents open in a session, by identifier.
pub struct SessionState {
    entries: Vec<(u128, Document)>,
}

impl View for SessionState {
    type V = Map<u128, DocumentModel>;

    closed spec fn view(&self) -> Map<u128, DocumentModel> {
        entries_map(entry_models(self.entries@))
    }
}

impl SessionState {
    /// No identifier is kept twice.
    pub closed spec fn wf(&self) -> bool {
        keys_distinct(entry_models(self.entries@))
    }

    /// A session with no documents.
    pub fn new() -> (r: SessionState)
        ensures
            r.wf(),
            r@ == Map::<u128, DocumentModel>::empty(),
    {
        let r = SessionState { entries: Vec::new() };
        assert(entry_models(r.entries@) =~= seq![]);
        r
    }

    /// Position of the entry for `id`.
    fn position(&self, id: u128) -> (r: Option<usize>)
        ensures
            match r {
                Some(i) => i < self.entries@.len() && self.entries@[i as int].0 == id,
                None => forall|i: int| 0 <= i < self.entries@.len() ==> self.entries@[i].0 != id,
            },
    {
        let mut i: usize = 0;
        while i < self.entries.len()
            invariant
                i <= self.entries@.len(),
                forall|j: int| 0 <= j < i ==> self.entries@[j].0 != id,
            decreases self.entries.len() - i,
        {
            if self.entries[i].0 == id {
                return Some(i);
            }
            i += 1;
        }
        None
    }

    proof fn lemma_view(&self)
        requires
            self.wf(),
        ensures
            forall|k: u128| #[trigger]
                self@.contains_key(k) <==> exists|i: int| 0 <= i < self.entries@.len() && self.entries@[i].0 == k,
            forall|i: int| 0 <= i < self.entries@.len() ==> #[trigger] self@[self.entries@[i].0] == self.entries@[i].1@,
            self@.dom().finite(),
            self@.dom().len() == self.entries@.len(),
    {
        let m = entry_models(self.entries@);
        lemma_entries_map(m);
        assert forall|k: u128| #[trigger]
            self@.contains_key(k) <==> exists|i: int| 0 <= i < self.entries@.len() && self.entries@[i].0 == k by {
            if exists|i: int| 0 <= i < self.entries@.len() && self.entries@[i].0 == k {
                let i = choose|i: int| 0 <= i < self.entries@.len() && self.entries@[i].0 == k;
                assert(m[i].0 == k);
            }
        }
        assert forall|i: int| 0 <= i < self.entries@.len() implies #[trigger] self@[self.entries@[i].0]
            == self.entries@[i].1@ by {
            assert(m[i].0 == self.entries@[i].0);
        }
    }

    /// Keep `doc` under its own identifier, in place of a document kept
    /// under it before; the identifier is returned.
    pub fn insert(&mut self, doc: Document) -> (id: u128)
        requires
            old(self).wf(),
        ensures
            final(self).wf(),
            id == doc@.id,
            final(self)@ == old(self)@.insert(id, doc@),
    {
        proof {
            doc.lemma_view();
        }
        let id = doc.id;
        let ghost dm = doc@;
        let ghost before = entry_models(self.entries@);
        match self.position(id) {
            Some(i) => {
                self.entries.set(i, (id, doc));
                proof {
                    lemma_entries_map_update(before, i as int, dm);
                    assert(entry_models(self.entries@) =~= before.update(i as int, (id, dm)));
                }
            },
            None => {
                self.entries.push((id, doc));
                proof {
                    assert(entry_models(self.entries@).drop_last() =~= before);
                    assert(entry_models(self.entries@) =~= before.push((id, dm)));
                }
            },
        }
        id
    }

    /// Open a new document (see `Document::new`) and return its identifier.
    pub fn create_document(&mut self, name: &str, width: u32, height: u32) -> (id: u128)
        requires
            old(self).wf(),
        ensures
            final(self).wf(),
            final(self)@ == old(self)@.insert(id, final(self)@[id]),
            final(self)@[id].id == id,
            is_new_document(final(self)@[id], name@, width, height),
    {
        let doc = Document::new(name, width, height);
        self.insert(doc)
    }

    /// `f` applied to the document with identifier `id`, or the error that
    /// it is not open.
    pub fn with_doc<R, F: FnOnce(&Document) -> R>(&self, id: u128, f: F) -> (r: Result<R, RasaError>)
        requires
            self.wf(),
            forall|d: &Document| call_requires(f, (d,)),
        ensures
            match r {
                Ok(v) => self@.contains_key(id) && exists|d: &Document| d@ == self@[id] && call_ensures(f, (d,), v),
                Err(e) => !self@.contains_key(id) && (e matches RasaError::Other(m) && m@ == not_found_message(id)),
            },
    {
        proof {
            self.lemma_view();
        }
        match self.position(id) {
            Some(i) => {
                let d = &self.entries[i].1;
                Ok(f(d))
            },
            None => {
                let mut m = "document not found: ".to_owned();
                let t = uuid_string(id);
                m.append(t.as_str());
                Err(RasaError::Other(m))
            },
        }
    }

    /// `f` applied to the document with identifier `id`, which it may
    /// change, or the error that it is not open.
    pub fn with_doc_mut<R, F: FnOnce(&mut Document) -> R>(&mut self, id: u128, f: F) -> (r: Result<R, RasaError>)
        requires
            old(self).wf(),
            forall|d: &mut Document| call_requires(f, (d,)),
        ensures
            final(self).wf(),
            match r {
                Ok(v) => old(self)@.contains_key(id) && exists|d: &mut Document|
                    d@ == old(self)@[id] && final(self)@ == old(self)@.insert(id, final(d)@) && call_ensures(f, (d,), v),
                Err(e) => !old(self)@.contains_key(id) && final(self)@ == old(self)@ && (e matches RasaError::Other(m)
                    && m@ == not_found_message(id)),
            },
    {
        proof {
            self.lemma_view();
        }
        let ghost before = entry_models(self.entries@);
        match self.position(id) {
            Some(i) => {
                let entry = &mut self.entries[i];
                let v = f(&mut entry.1);
                proof {
                    let dm = self.entries@[i as int].1@;
                    lemma_entries_map_update(before, i as int, dm);
                    assert(entry_models(self.entries@) =~= before.update(i as int, (id, dm)));
                }
                Ok(v)
            },
            None => {
                let mut m = "document not found: ".to_owned();
                let t = uuid_string(id);
                m.append(t.as_str());
                Err(RasaError::Other(m))
            },
        }
    }

    /// The identifiers of the open documents, in the order they are kept.
    pub closed spec fn keys(&self) -> Seq<u128> {
        Seq::new(self.entries@.len(), |i: int| self.entries@[i].0)
    }

    /// Identifier, name, width and height of every open document: one entry
    /// for each identifier under which a document is kept, in the order of
    /// `keys`.
    pub fn list_documents(&self) -> (r: Vec<(u128, String, u32, u32)>)
        requires
            self.wf(),
        ensures
            r@.len() == self.keys().len(),
            r@.len() == self@.dom().len(),
            forall|i: int, j: int| 0 <= i < j < self.keys().len() ==> self.keys()[i] != self.keys()[j],
            forall|k: u128| self@.contains_key(k) <==> exists|i: int| 0 <= i < self.keys().len() && #[trigger] self.keys()[i] == k,
            forall|i: int|
                0 <= i < r@.len() ==> (#[trigger] r@[i].0, r@[i].1@, r@[i].2, r@[i].3) == listed(self@[self.keys()[i]]),
    {
        proof {
            self.lemma_view();
            assert forall|i: int, j: int| 0 <= i < j < self.keys().len() implies self.keys()[i] != self.keys()[j] by {
                assert(entry_models(self.entries@)[i].0 == self.keys()[i]);
                assert(entry_models(self.entries@)[j].0 == self.keys()[j]);
            }
            assert forall|k: u128| self@.contains_key(k) <==> exists|i: int|
                0 <= i < self.keys().len() && #[trigger] self.keys()[i] == k by {
                if self@.contains_key(k) {
                    let i = choose|i: int| 0 <= i < self.entries@.len() && self.entries@[i].0 == k;
                    assert(self.keys()[i] == k);
                }
            }
        }
        let mut r: Vec<(u128, String, u32, u32)> = Vec::new();
        let mut i: usize = 0;
        while i < self.entries.len()
            invariant
                self.wf(),
                i <= self.entries@.len(),
                r@.len() == i,
                forall|j: int|
                    0 <= j < i ==> (#[trigger] r@[j].0, r@[j].1@, r@[j].2, r@[j].3) == listed(self.entries@[j].1@),
            decreases self.entries.len() - i,
        {
            let d = &self.entries[i].1;
            proof {
                d.lemma_view();
            }
            r.push((d.id, d.name.clone(), d.size.width, d.size.height));
            i += 1;
        }
        proof {
            assert forall|j: int| 0 <= j < r@.len() implies (#[trigger] r@[j].0, r@[j].1@, r@[j].2, r@[j].3) == listed(
                self@[self.keys()[j]],
            ) by {
                assert(self@[self.entries@[j].0] == self.entries@[j].1@);
            }
        }
        r
    }

    /// Close the document with identifier `id`; whether it was open.
    pub fn close_document(&mut self, id: u128) -> (r: bool)
        requires
            old(self).wf(),
        ensures
            final(self).wf(),
            r == old(self)@.contains_key(id),
            final(self)@ == old(self)@.remove(id),
    {
        proof {
            self.lemma_view();
        }
        let ghost before = entry_models(self.entries@);
        match self.position(id) {
            Some(i) => {
                self.entries.remove(i);
                proof {
                    lemma_entries_map_remove(before, i as int);
                    assert(entry_models(self.entries@) =~= before.remove(i as int));
                }
                true
            },
            None => {
                assert(old(self)@.remove(id) =~= old(self)@);
                false
            },
        }
    }
}

/// Closing a document a second time finds nothing to close and changes
/// nothing: after `close_document(id)`, whatever the session held, `id` is
/// not open, and closing it again leaves the documents as they are.
pub proof fn law_close_twice(before: Map<u128, DocumentModel>, id: u128)
    ensures
        !before.remove(id).contains_key(id),
        before.remove(id).remove(id) == before.remove(id),
{
    assert(before.remove(id).remove(id) =~= before.remove(id));
}

/// A document read back after it was kept is the document that was kept:
/// after `insert(doc)` (or `create_document`) the session holds `doc` under
/// its identifier, and every other document as before.
pub proof fn law_read_after_insert(before: Map<u128, DocumentModel>, id: u128, doc: DocumentModel, other: u128)
    requires
        other != id,
    ensures
        before.insert(id, doc).contains_key(id),
        before.insert(id, doc)[id] == doc,
        before.insert(id, doc).contains_key(other) == before.contains_key(other),
        before.insert(id, doc)[other] == before[other],
{
}

} // verus!
