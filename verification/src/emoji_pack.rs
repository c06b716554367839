//! The Twemoji glyph pack: PNG files by name, read from a ZIP archive.

use vstd::prelude::*;
use std::io::Cursor;
use std::io::Read;
use zip::ZipArchive;
use crate::text::{chars_contain, chars_eq, chars_of};

verus! {

broadcast use vstd::seq_lib::group_seq_properties;

#[verifier::external_type_specification]
#[verifier::external_body]
#[verifier::reject_recursive_types(T)]
pub struct ExCursor<T>(Cursor<T>);

#[verifier::external_type_specification]
#[verifier::external_body]
#[verifier::reject_recursive_types(R)]
pub struct ExZipArchive<R>(ZipArchive<R>);

/// What `zip::ZipArchive::new` makes of an archive's bytes: `None` where it
/// refuses them, else the entries in central-directory order. Each entry is
/// `None` where `by_index` or `name` fails on it, else its name and, unless
/// reading it to the end fails, its data.
pub uninterp spec fn zip_parse(bytes: Seq<u8>) -> Option<Seq<Option<(Seq<char>, Option<Seq<u8>>)>>>;

/// The entries an opened archive holds, in the form `zip_parse` gives them.
pub uninterp spec fn zip_entries(archive: ZipArchive<Cursor<Vec<u8>>>) -> Seq<Option<(Seq<char>, Option<Seq<u8>>)>>;

/// `zip::ZipArchive::new` over an in-memory cursor: `None` where it returns
/// an error. Claimed: the result is `Some` exactly where `zip_parse` is, and
/// then holds the entries `zip_parse` names.
#[verifier::external_body]
fn zip_open(bytes: Vec<u8>) -> (r: Option<ZipArchive<Cursor<Vec<u8>>>>)
    ensures
        r is Some <==> zip_parse(bytes@) is Some,
        r is Some ==> zip_entries(r->0) == zip_parse(bytes@)->0,
{
    ZipArchive::new(Cursor::new(bytes)).ok()
}

/// `zip::ZipArchive::len`: claimed to be the number of entries.
#[verifier::external_body]
fn zip_len(archive: &ZipArchive<Cursor<Vec<u8>>>) -> (n: usize)
    ensures
        n == zip_entries(*archive).len(),
{
    archive.len()
}

/// `zip::ZipArchive::by_index` and then `name` on the entry. Claimed: the
/// archive's entries stay as they were, and the name is the entry's, or
/// `None` where the entry has none.
#[verifier::external_body]
fn zip_entry_name(archive: &mut ZipArchive<Cursor<Vec<u8>>>, i: usize) -> (r: Option<String>)
    requires
        i < zip_entries(*old(archive)).len(),
    ensures
        zip_entries(*final(archive)) == zip_entries(*old(archive)),
        match zip_entries(*old(archive))[i as int] {
            None => r is None,
            Some((name, _)) => r matches Some(s) && s@ == name,
        },
{
    match archive.by_index(i) {
        Ok(file) => match file.name() {
            Ok(name) => Some(name.into_owned()),
            Err(_) => None,
        },
        Err(_) => None,
    }
}

/// `zip::ZipArchive::by_index` and then `read_to_end` on the entry. Claimed:
/// the archive's entries stay as they were, and the data is the entry's, or
/// `None` where reading it fails.
#[verifier::external_body]
fn zip_entry_data(archive: &mut ZipArchive<Cursor<Vec<u8>>>, i: usize) -> (r: Option<Vec<u8>>)
    requires
        i < zip_entries(*old(archive)).len(),
        zip_entries(*old(archive))[i as int] is Some,
    ensures
        zip_entries(*final(archive)) == zip_entries(*old(archive)),
        match zip_entries(*old(archive))[i as int] {
            Some((_, Some(data))) => r matches Some(v) && v@ == data,
            _ => r is None,
        },
{
    match archive.by_index(i) {
        Ok(mut file) => {
            let mut buf = Vec::new();
            match file.read_to_end(&mut buf) {
                Ok(_) => Some(buf),
                Err(_) => None,
            }
        },
        Err(_) => None,
    }
}

/// `.png`
pub open spec fn png_suffix() -> Seq<char> {
    seq!['.', 'p', 'n', 'g']
}

/// A pack file name: a `.png` with no directory separator in it.
pub open spec fn accepted_name(name: Seq<char>) -> bool {
    &&& name.len() >= 4
    &&& name.subrange(name.len() - 4, name.len() as int) == png_suffix()
    &&& !name.contains('/')
    &&& !name.contains('\\')
}

/// The pack the entries make: each accepted, readable entry in order, a later
/// one replacing an earlier one of the same name.
pub open spec fn pack_map(es: Seq<Option<(Seq<char>, Option<Seq<u8>>)>>) -> Map<Seq<char>, Seq<u8>>
    decreases es.len(),
{
    if es.len() == 0 {
        Map::empty()
    } else {
        let m = pack_map(es.drop_last());
        match es.last() {
            Some((name, Some(data))) => if accepted_name(name) {
                m.insert(name, data)
            } else {
                m
            },
            _ => m,
        }
    }
}

/// Every file the pack keeps has a flat `.png` name: whatever an archive
/// holds, nothing with a directory separator in its name gets in.
pub proof fn lemma_pack_names_accepted(es: Seq<Option<(Seq<char>, Option<Seq<u8>>)>>, k: Seq<char>)
    requires
        pack_map(es).dom().contains(k),
    ensures
        accepted_name(k),
    decreases es.len(),
{
    if es.len() > 0 {
        let m = pack_map(es.drop_last());
        match es.last() {
            Some((name, Some(data))) => {
                if accepted_name(name) && k != name {
                    lemma_pack_names_accepted(es.drop_last(), k);
                } else if !accepted_name(name) {
                    lemma_pack_names_accepted(es.drop_last(), k);
                }
            },
            _ => {
                lemma_pack_names_accepted(es.drop_last(), k);
            },
        }
    }
}

/// The pack read from an archive's bytes: empty where the archive is refused.
pub open spec fn pack_from_zip(bytes: Seq<u8>) -> Map<Seq<char>, Seq<u8>> {
    match zip_parse(bytes) {
        None => Map::empty(),
        Some(es) => pack_map(es),
    }
}

/// PNG files by name.
pub struct EmojiPack {
    entries: Vec<(Vec<char>, Vec<u8>)>,
}

impl View for EmojiPack {
    type V = Map<Seq<char>, Seq<u8>>;

    closed spec fn view(&self) -> Map<Seq<char>, Seq<u8>> {
        Map::new(
            |k: Seq<char>| self.names().contains(k),
            |k: Seq<char>| self.entries@[self.slot(k)].1@,
        )
    }
}

fn ends_with_png(name: &Vec<char>) -> (b: bool)
    ensures
        b == (name@.len() >= 4 && name@.subrange(name@.len() - 4, name@.len() as int) == png_suffix()),
{
    let n = name.len();
    if n < 4 {
        return false;
    }
    let b = name[n - 4] == '.' && name[n - 3] == 'p' && name[n - 2] == 'n' && name[n - 1] == 'g';
    proof {
        let tail = name@.subrange(n - 4, n as int);
        if b {
            assert(tail =~= png_suffix());
        } else {
            assert(tail[0] != '.' || tail[1] != 'p' || tail[2] != 'n' || tail[3] != 'g');
        }
    }
    b
}

impl EmojiPack {
    /// The file names, in the order they came in.
    pub closed spec fn names(&self) -> Seq<Seq<char>> {
        self.entries@.map_values(|e: (Vec<char>, Vec<u8>)| e.0@)
    }

    /// Where the file `k` is held.
    closed spec fn slot(&self, k: Seq<char>) -> int {
        choose|i: int| 0 <= i < self.entries@.len() && self.entries@[i].0@ == k
    }

    /// No name is held twice.
    pub closed spec fn wf(&self) -> bool {
        self.names().no_duplicates()
    }

    proof fn lemma_slot(&self, i: int)
        requires
            self.wf(),
            0 <= i < self.entries@.len(),
        ensures
            self.slot(self.entries@[i].0@) == i,
            self.names().contains(self.entries@[i].0@),
    {
        let k = self.entries@[i].0@;
        assert(self.names()[i] == k);
        let j = self.slot(k);
        assert(0 <= j < self.entries@.len() && self.entries@[j].0@ == k);
        assert(self.names()[j] == k);
    }

    proof fn lemma_view_at(&self, k: Seq<char>)
        requires
            self.wf(),
            self.names().contains(k),
        ensures
            0 <= self.slot(k) < self.entries@.len(),
            self.entries@[self.slot(k)].0@ == k,
            self@[k] == self.entries@[self.slot(k)].1@,
    {
        let i = choose|i: int| 0 <= i < self.names().len() && self.names()[i] == k;
        assert(self.entries@[i].0@ == k);
    }

    /// An empty pack.
    pub fn new() -> (p: Self)
        ensures
            p.wf(),
            p@ == Map::<Seq<char>, Seq<u8>>::empty(),
    {
        let p = EmojiPack { entries: Vec::new() };
        assert(p@ =~= Map::<Seq<char>, Seq<u8>>::empty());
        p
    }

    fn find(&self, name: &Vec<char>) -> (r: Option<usize>)
        requires
            self.wf(),
        ensures
            match r {
                Some(i) => i < self.entries@.len() && self.entries@[i as int].0@ == name@
                    && self.slot(name@) == i,
                None => !self.names().contains(name@),
            },
    {
        let mut i: usize = 0;
        while i < self.entries.len()
            invariant
                i <= self.entries@.len(),
                self.wf(),
                forall|j: int| 0 <= j < i ==> self.entries@[j].0@ != name@,
            decreases self.entries@.len() - i,
        {
            if chars_eq(&self.entries[i].0, name) {
                proof {
                    self.lemma_slot(i as int);
                }
                return Some(i);
            }
            i = i + 1;
        }
        proof {
            if self.names().contains(name@) {
                let j = choose|j: int| 0 <= j < self.names().len() && self.names()[j] == name@;
                assert(self.entries@[j].0@ == name@);
            }
        }
        None
    }

    /// The PNG bytes held under `name`.
    pub fn get(&self, name: &Vec<char>) -> (r: Option<&Vec<u8>>)
        requires
            self.wf(),
        ensures
            match r {
                Some(v) => self@.dom().contains(name@) && v@ == self@[name@],
                None => !self@.dom().contains(name@),
            },
    {
        match self.find(name) {
            Some(i) => {
                proof {
                    self.lemma_slot(i as int);
                }
                Some(&self.entries[i].1)
            },
            None => None,
        }
    }

    /// Hold `png` under `name`, replacing what was held there.
    pub fn insert(&mut self, name: Vec<char>, png: Vec<u8>)
        requires
            old(self).wf(),
        ensures
            final(self).wf(),
            final(self)@ == old(self)@.insert(name@, png@),
    {
        let ghost old_self = *self;
        let ghost k = name@;
        let ghost v = png@;
        match self.find(&name) {
            Some(i) => {
                self.entries.set(i, (name, png));
                proof {
                    assert(self.names() =~= old_self.names());
                    assert forall|q: Seq<char>| #[trigger] self.names().contains(q) && q != k implies
                        self.entries@[self.slot(q)].1@ == old_self@[q] by {
                        old_self.lemma_view_at(q);
                        let j = old_self.slot(q);
                        self.lemma_slot(j);
                    }
                    self.lemma_slot(i as int);
                    assert(self@ =~= old_self@.insert(k, v));
                }
            },
            None => {
                self.entries.push((name, png));
                proof {
                    let n = old_self.entries@.len();
                    assert(self.names() =~= old_self.names().push(k));
                    assert(self.wf()) by {
                        assert forall|a: int, b: int|
                            0 <= a < self.names().len() && 0 <= b < self.names().len() && a != b
                            implies self.names()[a] != self.names()[b] by {
                            if a == n {
                                assert(old_self.names().contains(self.names()[b]) || b == n);
                            } else if b == n {
                                assert(old_self.names().contains(self.names()[a]));
                            }
                        }
                    }
                    assert forall|q: Seq<char>| #[trigger] self.names().contains(q) && q != k implies
                        self.entries@[self.slot(q)].1@ == old_self@[q] by {
                        let jj = choose|jj: int| 0 <= jj < self.names().len() && self.names()[jj] == q;
                        assert(jj != n);
                        assert(old_self.names()[jj] == q);
                        old_self.lemma_view_at(q);
                        let j = old_self.slot(q);
                        self.lemma_slot(j);
                    }
                    self.lemma_slot(n as int);
                    assert(self@ =~= old_self@.insert(k, v));
                }
            },
        }
    }

    /// How many files the pack holds.
    pub fn len(&self) -> (n: usize)
        requires
            self.wf(),
        ensures
            n == self@.dom().len(),
    {
        proof {
            assert(self@.dom() =~= self.names().to_set());
            self.names().unique_seq_to_set();
        }
        self.entries.len()
    }

    /// Read the pack from a ZIP archive: every `.png` entry without a
    /// directory separator in its name, by name. An archive that does not
    /// open gives an empty pack; an entry that cannot be read is skipped.
    pub fn from_zip(bytes: &[u8]) -> (p: Self)
        ensures
            p.wf(),
            p@ == pack_from_zip(bytes@),
    {
        let mut pack = EmojiPack::new();
        let owned = vstd::slice::slice_to_vec(bytes);
        let mut archive = match zip_open(owned) {
            Some(a) => a,
            None => return pack,
        };
        let ghost es = zip_entries(archive);
        let n = zip_len(&archive);
        let mut i: usize = 0;
        while i < n
            invariant
                i <= n,
                n == es.len(),
                zip_entries(archive) == es,
                pack.wf(),
                pack@ == pack_map(es.take(i as int)),
            decreases n - i,
        {
            proof {
                assert(es.take(i + 1).drop_last() =~= es.take(i as int));
                assert(es.take(i + 1).last() == es[i as int]);
            }
            match zip_entry_name(&mut archive, i) {
                None => {},
                Some(name) => {
                    let chars = chars_of(name.as_str());
                    if ends_with_png(&chars) && !chars_contain(&chars, '/') && !chars_contain(&chars, '\\') {
                        match zip_entry_data(&mut archive, i) {
                            Some(data) => {
                                pack.insert(chars, data);
                            },
                            None => {},
                        }
                    }
                },
            }
            i = i + 1;
        }
        proof {
            assert(es.take(i as int) =~= es);
        }
        pack
    }
}

} // verus!
