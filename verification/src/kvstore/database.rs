//! The store: its entries in memory, and the name of the file behind them.

use crate::kvstore::error::StoreError;
use crate::kvstore::format::{
    clean, decode, lemma_round_trip, lines, load, parse_record, render, well_formed,
};
use crate::kvstore::model::{
    delete, distinct, lemma_delete, lemma_map_of, lemma_position, lemma_position_absent,
    lemma_position_distinct, lemma_position_push, lemma_position_remove, lemma_position_update,
    lemma_put, map_of, position, put,
};
use crate::text::{chars_of, find_char, string_of};
use vstd::hash_map::StringHashMap;
use vstd::prelude::*;
use vstd::string::*;

verus! {

/// A key-value store. It holds every entry in memory, in the order in
/// which the keys first came in, and knows the file that it is kept in.
pub struct Database {
    entries: Vec<(String, String)>,
    index: StringHashMap<usize>,
    db_filename: String,
}

/// The index names the place of each key's record, and no other key.
spec fn indexes(index: Map<Seq<char>, usize>, recs: Seq<(Seq<char>, Seq<char>)>) -> bool {
    forall|k: Seq<char>|
        #![trigger index.dom().contains(k)]
        #![trigger position(recs, k)]
        match position(recs, k) {
            Some(i) => index.dom().contains(k) && index[k] as int == i,
            None => !index.dom().contains(k),
        }
}

/// The index while the records from `from` on are being told their new
/// places: each of them is still listed one place too far back.
spec fn indexes_but(
    index: Map<Seq<char>, usize>,
    recs: Seq<(Seq<char>, Seq<char>)>,
    from: int,
) -> bool {
    forall|k: Seq<char>|
        #![trigger index.dom().contains(k)]
        #![trigger position(recs, k)]
        match position(recs, k) {
            Some(i) => index.dom().contains(k) && index[k] as int == if i < from {
                i
            } else {
                i + 1
            },
            None => !index.dom().contains(k),
        }
}

impl View for Database {
    type V = Map<Seq<char>, Seq<char>>;

    /// The mapping from keys to values that the store holds.
    open spec fn view(&self) -> Map<Seq<char>, Seq<char>> {
        map_of(self.records())
    }
}

impl Database {
    /// The entries as records, in the order in which the store keeps them.
    pub closed spec fn records(&self) -> Seq<(Seq<char>, Seq<char>)> {
        self.entries@.map_values(|e: (String, String)| (e.0@, e.1@))
    }

    /// The name of the file that the store is kept in.
    pub closed spec fn path(&self) -> Seq<char> {
        self.db_filename@
    }

    /// The store is well formed: no key occurs twice, and the store finds
    /// each key where its record stands.
    pub closed spec fn wf(&self) -> bool {
        distinct(self.records()) && indexes(self.index@, self.records())
    }

    /// In a well-formed store no key occurs twice.
    pub proof fn lemma_wf(&self)
        requires
            self.wf(),
        ensures
            distinct(self.records()),
    {
    }

    /// Builds the store from the name of its file and the text that was
    /// read from that file. Each line is put into the store in turn, so a
    /// later line for a key replaces the value of an earlier one. Fails
    /// where a line holds no record, which is any line without a tab.
    pub fn from_disk(path: &str, contents: &str) -> (opened: Result<Database, StoreError>)
        ensures
            match opened {
                Ok(db) => {
                    &&& db.wf()
                    &&& db.path() == path@
                    &&& decode(contents@) == Some(db.records())
                },
                Err(e) => e is CorruptData && decode(contents@) is None,
            },
    {
        let chars = chars_of(contents);
        let n = chars.len();
        let mut db = Database {
            entries: Vec::new(),
            index: StringHashMap::new(),
            db_filename: path.to_owned(),
        };
        let mut pos: usize = 0;
        let ghost mut done: Seq<Seq<char>> = Seq::empty();
        assert(db.records() =~= Seq::<(Seq<char>, Seq<char>)>::empty());
        assert(db.wf()) by {
            assert forall|k: Seq<char>| position(db.records(), k) is None by {
                lemma_position_absent(db.records(), k);
            }
        }
        assert(chars@.skip(0) =~= chars@);
        while pos < n
            invariant
                pos <= n == chars@.len(),
                chars@ == contents@,
                lines(chars@) == done + lines(chars@.skip(pos as int)),
                well_formed(done),
                db.records() == load(done),
                db.wf(),
                db.path() == path@,
            decreases n - pos,
        {
            let ghost rest = chars@.skip(pos as int);
            let end = find_char(&chars, pos, n, '\n');
            assert(chars@.subrange(pos as int, n as int) =~= rest);
            let ghost line = chars@.subrange(pos as int, end as int);
            let next = if end < n {
                end + 1
            } else {
                n
            };
            proof {
                if end < n {
                    assert(rest.take(end - pos) =~= line);
                    assert(rest.skip(end - pos + 1) =~= chars@.skip(next as int));
                } else {
                    assert(line =~= rest);
                    assert(lines(chars@.skip(next as int)) =~= Seq::<Seq<char>>::empty());
                    assert(seq![rest] + Seq::<Seq<char>>::empty() =~= seq![rest]);
                }
                assert(lines(rest) == seq![line] + lines(chars@.skip(next as int)));
                assert(done + (seq![line] + lines(chars@.skip(next as int))) =~= done.push(line)
                    + lines(chars@.skip(next as int)));
            }
            let tab = find_char(&chars, pos, end, '\t');
            if tab == end {
                proof {
                    let all = lines(chars@);
                    assert(all[done.len() as int] == line);
                    assert(parse_record(all[done.len() as int]) is None);
                }
                return Err(StoreError::CorruptData);
            }
            let key = string_of(&chars, pos, tab);
            let value = string_of(&chars, tab + 1, end);
            proof {
                assert(line.take(tab - pos) =~= key@);
                assert(line.skip(tab - pos + 1) =~= value@);
                assert(parse_record(line) == Some((key@, value@)));
                let grown = done.push(line);
                assert(grown.drop_last() =~= done);
                assert(grown.last() == line);
                assert forall|i: int| 0 <= i < grown.len() implies (#[trigger] parse_record(
                    grown[i],
                )) is Some by {
                    if i < done.len() {
                        assert(grown[i] == done[i]);
                    }
                }
                done = grown;
            }
            db.put(key, value);
            pos = next;
        }
        proof {
            assert(lines(chars@.skip(pos as int)) =~= Seq::<Seq<char>>::empty());
            assert(done + Seq::<Seq<char>>::empty() =~= done);
        }
        Ok(db)
    }

    /// Reopening. Where every key of a store is free of tabs and line
    /// feeds, and every value is free of line feeds, the image that `flush`
    /// returns is one that `from_disk` accepts, and the store built from it
    /// holds the same entries in the same order.
    pub proof fn lemma_reopen(&self)
        requires
            self.wf(),
            clean(self.records()),
        ensures
            decode(render(self.records())) == Some(self.records()),
    {
        lemma_round_trip(self.records());
    }

    /// The name of the file that the store is kept in.
    pub fn db_filename(&self) -> (name: &str)
        ensures
            name@ == self.path(),
    {
        self.db_filename.as_str()
    }

    /// The index of the entry with the given key, if there is one.
    fn find(&self, key: &str) -> (at: Option<usize>)
        requires
            self.wf(),
        ensures
            match at {
                Some(i) => i < self.entries@.len() && position(self.records(), key@) == Some(
                    i as int,
                ),
                None => position(self.records(), key@) is None,
            },
    {
        proof {
            lemma_position(self.records(), key@);
        }
        match self.index.get(key) {
            Some(i) => Some(*i),
            None => None,
        }
    }

    /// Looks a key up. Returns the stored key and its value, or `None`
    /// where the store has no entry for the key.
    pub fn get(&self, key: &str) -> (found: Option<(&String, &String)>)
        requires
            self.wf(),
        ensures
            match found {
                Some((k, v)) => self@.contains_key(key@) && k@ == key@ && v@ == self@[key@],
                None => !self@.contains_key(key@),
            },
    {
        proof {
            lemma_map_of(self.records(), key@);
            lemma_position(self.records(), key@);
        }
        match self.find(key) {
            Some(i) => {
                let entry = &self.entries[i];
                Some((&entry.0, &entry.1))
            },
            None => None,
        }
    }

    /// Sets a key to a value, whether or not the store has the key.
    fn put(&mut self, key: String, value: String)
        requires
            old(self).wf(),
        ensures
            final(self).wf(),
            final(self).path() == old(self).path(),
            final(self).records() == put(old(self).records(), key@, value@),
    {
        let ghost before = self.records();
        proof {
            lemma_put(before, key@, value@);
        }
        match self.find(key.as_str()) {
            Some(i) => {
                self.entries.set(i, (key, value));
                proof {
                    lemma_position(before, key@);
                    assert(self.records() =~= before.update(i as int, (key@, value@)));
                    assert forall|k: Seq<char>| position(self.records(), k) == position(
                        before,
                        k,
                    ) by {
                        lemma_position_update(before, i as int, value@, k);
                    }
                }
            },
            None => {
                let at = self.entries.len();
                self.index.insert(key.clone(), at);
                self.entries.push((key, value));
                proof {
                    assert(self.records() =~= before.push((key@, value@)));
                    assert forall|k: Seq<char>| position(self.records(), k) == if position(
                        before,
                        k,
                    ) is Some {
                        position(before, k)
                    } else if k == key@ {
                        Some(at as int)
                    } else {
                        None
                    } by {
                        lemma_position_push(before, (key@, value@), k);
                    }
                }
            },
        }
    }

    /// Inserts a key with its value. Where the store has the key already,
    /// the value is replaced if `replace_existing` is set; otherwise the
    /// call fails and the store stays as it was.
    pub fn insert(&mut self, key: String, value: String, replace_existing: bool) -> (done: Result<
        bool,
        StoreError,
    >)
        requires
            old(self).wf(),
        ensures
            final(self).wf(),
            final(self).path() == old(self).path(),
            old(self)@.contains_key(key@) && !replace_existing ==> {
                &&& done matches Err(StoreError::AlreadyExists { key: k })
                &&& k@ == key@
                &&& final(self).records() == old(self).records()
                &&& final(self)@ == old(self)@
            },
            !old(self)@.contains_key(key@) || replace_existing ==> {
                &&& done == Ok::<bool, StoreError>(true)
                &&& final(self).records() == put(old(self).records(), key@, value@)
                &&& final(self)@ == old(self)@.insert(key@, value@)
            },
    {
        proof {
            lemma_map_of(self.records(), key@);
            lemma_put(self.records(), key@, value@);
        }
        if !replace_existing {
            if self.find(key.as_str()).is_some() {
                return Err(StoreError::AlreadyExists { key });
            }
        }
        self.put(key, value);
        Ok(true)
    }

    /// Removes the entry for a key. Returns the removed key and value, or
    /// `None` where the store has no entry for the key, and then the store
    /// stays as it was.
    pub fn remove(&mut self, key: &str) -> (removed: Option<(String, String)>)
        requires
            old(self).wf(),
        ensures
            final(self).wf(),
            final(self).path() == old(self).path(),
            final(self).records() == delete(old(self).records(), key@),
            final(self)@ == old(self)@.remove(key@),
            match removed {
                Some((k, v)) => old(self)@.contains_key(key@) && k@ == key@ && v@ == old(self)@[key@],
                None => {
                    &&& !old(self)@.contains_key(key@)
                    &&& final(self).records() == old(self).records()
                    &&& final(self)@ == old(self)@
                },
            },
    {
        let ghost before = self.records();
        proof {
            lemma_map_of(before, key@);
            lemma_position(before, key@);
            lemma_delete(before, key@);
        }
        match self.find(key) {
            Some(i) => {
                let entry = self.entries.remove(i);
                self.index.remove(key);
                let ghost after = self.records();
                proof {
                    assert(after =~= before.remove(i as int));
                    assert forall|k: Seq<char>|
                        #![trigger self.index@.dom().contains(k)]
                        #![trigger position(after, k)]
                        match position(after, k) {
                            Some(p) => self.index@.dom().contains(k) && self.index@[k] as int
                                == if p < i {
                                p
                            } else {
                                p + 1
                            },
                            None => !self.index@.dom().contains(k),
                        } by {
                        lemma_position_remove(before, i as int, k);
                        lemma_position(before, k);
                        assert(old(self).index@.dom().contains(k) <==> position(before, k) is Some);
                    }
                }
                let mut j: usize = i;
                while j < self.entries.len()
                    invariant
                        j <= self.entries@.len(),
                        self.records() == after,
                        distinct(after),
                        self.path() == old(self).path(),
                        indexes_but(self.index@, after, j as int),
                    decreases self.entries@.len() - j,
                {
                    let moved = self.entries[j].0.clone();
                    let ghost index_before = self.index@;
                    self.index.insert(moved, j);
                    proof {
                        lemma_position_distinct(after, j as int);
                        assert forall|k: Seq<char>|
                            #![trigger self.index@.dom().contains(k)]
                            #![trigger position(after, k)]
                            match position(after, k) {
                                Some(p) => self.index@.dom().contains(k) && self.index@[k] as int
                                    == if p < j + 1 {
                                    p
                                } else {
                                    p + 1
                                },
                                None => !self.index@.dom().contains(k),
                            } by {
                            lemma_position(after, k);
                            assert(index_before.dom().contains(k) <==> position(after, k) is Some);
                        }
                    }
                    j += 1;
                }
                proof {
                    assert forall|k: Seq<char>|
                        #![trigger self.index@.dom().contains(k)]
                        #![trigger position(after, k)]
                        match position(after, k) {
                            Some(p) => self.index@.dom().contains(k) && self.index@[k] as int == p,
                            None => !self.index@.dom().contains(k),
                        } by {
                        lemma_position(after, k);
                    }
                }
                Some(entry)
            },
            None => {
                assert(map_of(before).remove(key@) =~= map_of(before));
                None
            },
        }
    }

    /// Empties the store, and returns the file image that is to replace
    /// the store file at once: the image of the empty store, which is the
    /// empty text.
    pub fn init(&mut self) -> (image: String)
        ensures
            final(self).wf(),
            final(self).path() == old(self).path(),
            final(self).records() == Seq::<(Seq<char>, Seq<char>)>::empty(),
            final(self)@ == Map::<Seq<char>, Seq<char>>::empty(),
            image@ == render(final(self).records()),
            image@ == Seq::<char>::empty(),
    {
        self.entries.clear();
        self.index.clear();
        assert(self.records() =~= Seq::<(Seq<char>, Seq<char>)>::empty());
        assert(self.wf()) by {
            assert forall|k: Seq<char>| position(self.records(), k) is None by {
                lemma_position_absent(self.records(), k);
            }
        }
        assert(self@ =~= Map::<Seq<char>, Seq<char>>::empty());
        self.flush()
    }

    /// The file image of the store as it stands: one line per entry, in
    /// the store's order, each made of the key, a tab, the value and a line
    /// feed. Writing it in place of the whole store file persists the store.
    pub fn flush(&self) -> (image: String)
        ensures
            image@ == render(self.records()),
    {
        let mut image = String::new();
        let mut i: usize = 0;
        while i < self.entries.len()
            invariant
                i <= self.entries@.len(),
                image@ == render(self.records().take(i as int)),
            decreases self.entries@.len() - i,
        {
            let ghost so_far = image@;
            let entry = &self.entries[i];
            image.append(entry.0.as_str());
            image.push('\t');
            image.append(entry.1.as_str());
            image.push('\n');
            proof {
                let upto = self.records().take(i + 1);
                assert(upto.drop_last() =~= self.records().take(i as int));
                assert(upto.last() == (entry.0@, entry.1@));
                assert(image@ =~= so_far + (entry.0@ + seq!['\t'] + entry.1@) + seq!['\n']);
            }
            i += 1;
        }
        assert(self.records().take(i as int) =~= self.records());
        image
    }
}

} // verus!
