use vstd::prelude::*;

verus! {

/// A bookmark as the contracts see it: its name and its path.
pub type Row = (Seq<char>, Seq<char>);

/// One bookmark: a short name and the directory it stands for.
#[derive(Debug)]
pub struct SavedPath {
    pub name: String,
    pub path: String,
}

impl View for SavedPath {
    type V = Row;

    open spec fn view(&self) -> Row {
        (self.name@, self.path@)
    }
}

impl SavedPath {
    /// A bookmark holding copies of the two strings.
    pub fn new(name: &str, path: &str) -> (r: SavedPath)
        ensures
            r@ == (name@, path@),
    {
        SavedPath { name: name.to_owned(), path: path.to_owned() }
    }

    /// An independent copy of this bookmark.
    pub fn duplicate(&self) -> (r: SavedPath)
        ensures
            r@ == self@,
    {
        SavedPath { name: self.name.clone(), path: self.path.clone() }
    }
}

/// The ways an operation on the bookmark store can fail.
#[derive(Debug, Clone, Copy, PartialEq, Eq, Structural)]
pub enum StoreError {
    /// The backing storage cannot be opened, created or written.
    StorageUnavailable,
    /// An insert named a bookmark that already exists.
    DuplicateName,
    /// No bookmark has the requested name.
    NotFound,
    /// Any other failure of the storage engine.
    Other,
}

impl StoreError {
    /// The text that describes this error.
    pub open spec fn description(&self) -> Seq<char> {
        match self {
            StoreError::StorageUnavailable => "storage unavailable"@,
            StoreError::DuplicateName => "name already used"@,
            StoreError::NotFound => "not found"@,
            StoreError::Other => "storage error"@,
        }
    }

    /// The text that describes this error.
    pub fn describe(&self) -> (r: String)
        ensures
            r@ == self.description(),
    {
        match self {
            StoreError::StorageUnavailable => String::from_str("storage unavailable"),
            StoreError::DuplicateName => String::from_str("name already used"),
            StoreError::NotFound => String::from_str("not found"),
            StoreError::Other => String::from_str("storage error"),
        }
    }
}

/// No two rows share a name.
pub open spec fn names_unique(rows: Seq<Row>) -> bool {
    forall|i: int, j: int|
        0 <= i < rows.len() && 0 <= j < rows.len() && i != j ==> #[trigger] rows[i].0
            != #[trigger] rows[j].0
}

/// Some row carries `name`.
pub open spec fn has_name(rows: Seq<Row>, name: Seq<char>) -> bool {
    exists|i: int| 0 <= i < rows.len() && #[trigger] rows[i].0 == name
}

/// The position of a row named `name` (meaningful when there is one).
pub open spec fn index_of(rows: Seq<Row>, name: Seq<char>) -> int {
    choose|i: int| 0 <= i < rows.len() && #[trigger] rows[i].0 == name
}

/// The path stored under `name`, if any.
pub open spec fn lookup(rows: Seq<Row>, name: Seq<char>) -> Option<Seq<char>> {
    if has_name(rows, name) {
        Some(rows[index_of(rows, name)].1)
    } else {
        None
    }
}

/// The rows after inserting `(name, path)`: appended at the end, unless the
/// name is taken, in which case nothing changes.
pub open spec fn inserted(rows: Seq<Row>, name: Seq<char>, path: Seq<char>) -> Seq<Row> {
    if has_name(rows, name) {
        rows
    } else {
        rows.push((name, path))
    }
}

/// The rows after removing the one named `name`, if there is one.
pub open spec fn removed(rows: Seq<Row>, name: Seq<char>) -> Seq<Row> {
    if has_name(rows, name) {
        rows.remove(index_of(rows, name))
    } else {
        rows
    }
}

/// The rows of a store that started empty and received the inserts `ops`
/// in order.
pub open spec fn replay(ops: Seq<Row>) -> Seq<Row>
    decreases ops.len(),
{
    if ops.len() == 0 {
        Seq::empty()
    } else {
        inserted(replay(ops.drop_last()), ops.last().0, ops.last().1)
    }
}

/// The bookmark store: names mapped to paths, kept in insertion order, with
/// every name used at most once.
pub struct Store {
    rows: Vec<SavedPath>,
}

impl View for Store {
    type V = Seq<Row>;

    closed spec fn view(&self) -> Seq<Row> {
        self.rows@.map_values(|b: SavedPath| b@)
    }
}

impl Store {
    /// The store's invariant: names are unique.
    pub open spec fn wf(&self) -> bool {
        names_unique(self@)
    }

    /// An empty store.
    pub fn create() -> (s: Store)
        ensures
            s.wf(),
            s@ == Seq::<Row>::empty(),
    {
        let s = Store { rows: Vec::new() };
        assert(s@ =~= Seq::<Row>::empty());
        s
    }

    /// The position of the bookmark named `name`, if there is one.
    fn position(&self, name: &str) -> (r: Option<usize>)
        ensures
            match r {
                Some(i) => i < self@.len() && self@[i as int].0 == name@,
                None => !has_name(self@, name@),
            },
    {
        let key = name.to_owned();
        let mut i: usize = 0;
        while i < self.rows.len()
            invariant
                i <= self.rows.len(),
                key@ == name@,
                self@.len() == self.rows@.len(),
                forall|j: int| 0 <= j < i ==> #[trigger] self@[j].0 != name@,
            decreases self.rows.len() - i,
        {
            if self.rows[i].name == key {
                return Some(i);
            }
            i = i + 1;
        }
        None
    }

    /// Adds the bookmark `(name, path)` at the end, or fails with
    /// `DuplicateName`, leaving the store as it was, when `name` is taken.
    pub fn save(&mut self, name: &str, path: &str) -> (r: Result<(), StoreError>)
        requires
            old(self).wf(),
        ensures
            final(self).wf(),
            final(self)@ == inserted(old(self)@, name@, path@),
            r is Ok <==> !has_name(old(self)@, name@),
            r is Err ==> r == Err::<(), StoreError>(StoreError::DuplicateName),
    {
        match self.position(name) {
            Some(_) => Err(StoreError::DuplicateName),
            None => {
                let ghost before = self@;
                self.rows.push(SavedPath::new(name, path));
                assert(self@ =~= before.push((name@, path@)));
                proof { lemma_inserted_unique(before, name@, path@); }
                Ok(())
            },
        }
    }

    /// The path stored under `name`, or `NotFound`.
    pub fn get(&self, name: &str) -> (r: Result<String, StoreError>)
        requires
            self.wf(),
        ensures
            r is Ok <==> has_name(self@, name@),
            match r {
                Ok(p) => lookup(self@, name@) == Some(p@),
                Err(e) => e == StoreError::NotFound && lookup(self@, name@) is None,
            },
    {
        match self.position(name) {
            Some(i) => {
                proof {
                    lemma_index_unique(self@, name@, i as int);
                }
                Ok(self.rows[i].path.clone())
            },
            None => Err(StoreError::NotFound),
        }
    }

    /// Every bookmark, in the order they were inserted.
    pub fn list(&self) -> (r: Vec<SavedPath>)
        ensures
            r@.map_values(|b: SavedPath| b@) == self@,
    {
        let mut out: Vec<SavedPath> = Vec::new();
        let mut i: usize = 0;
        while i < self.rows.len()
            invariant
                i <= self.rows.len(),
                self@.len() == self.rows@.len(),
                out@.len() == i,
                out@.map_values(|b: SavedPath| b@) == self@.subrange(0, i as int),
            decreases self.rows.len() - i,
        {
            let b = self.rows[i].duplicate();
            assert(b@ == self@[i as int]);
            let ghost prev = out@;
            out.push(b);
            assert forall|k: int| 0 <= k < i implies #[trigger] out@[k] == prev[k] by {}
            assert forall|k: int| 0 <= k < i implies #[trigger] out@[k]@ == self@[k] by {
                assert(prev.map_values(|b: SavedPath| b@)[k] == self@.subrange(0, i as int)[k]);
            }
            assert(out@.map_values(|b: SavedPath| b@) =~= self@.subrange(0, i + 1));
            i = i + 1;
        }
        assert(self@.subrange(0, self@.len() as int) =~= self@);
        out
    }

    /// Removes the bookmark named `name`; removing an absent name changes
    /// nothing and is no error.
    pub fn remove(&mut self, name: &str)
        requires
            old(self).wf(),
        ensures
            final(self).wf(),
            final(self)@ == removed(old(self)@, name@),
    {
        match self.position(name) {
            Some(i) => {
                let ghost before = self@;
                self.rows.remove(i);
                assert(self@ =~= before.remove(i as int));
                proof {
                    lemma_index_unique(before, name@, i as int);
                    lemma_removed_unique(before, name@);
                }
            },
            None => {},
        }
    }
}

/// In a store with unique names, the row carrying `name` is the one that
/// `index_of` picks.
pub proof fn lemma_index_unique(rows: Seq<Row>, name: Seq<char>, i: int)
    requires
        names_unique(rows),
        0 <= i < rows.len(),
        rows[i].0 == name,
    ensures
        has_name(rows, name),
        index_of(rows, name) == i,
        lookup(rows, name) == Some(rows[i].1),
{
    assert(has_name(rows, name));
}

/// Inserting keeps names unique.
pub proof fn lemma_inserted_unique(rows: Seq<Row>, name: Seq<char>, path: Seq<char>)
    requires
        names_unique(rows),
    ensures
        names_unique(inserted(rows, name, path)),
{
    if !has_name(rows, name) {
        let t = rows.push((name, path));
        assert forall|i: int, j: int|
            0 <= i < t.len() && 0 <= j < t.len() && i != j implies #[trigger] t[i].0
            != #[trigger] t[j].0 by {
            if i == rows.len() {
                assert(rows[j].0 != name);
            } else if j == rows.len() {
                assert(rows[i].0 != name);
            }
        }
    }
}

/// Removing keeps names unique.
pub proof fn lemma_removed_unique(rows: Seq<Row>, name: Seq<char>)
    requires
        names_unique(rows),
    ensures
        names_unique(removed(rows, name)),
{
    if has_name(rows, name) {
        let k = index_of(rows, name);
        let t = rows.remove(k);
        assert forall|i: int, j: int|
            0 <= i < t.len() && 0 <= j < t.len() && i != j implies #[trigger] t[i].0
            != #[trigger] t[j].0 by {
            let a = if i < k { i } else { i + 1 };
            let b = if j < k { j } else { j + 1 };
            assert(t[i] == rows[a]);
            assert(t[j] == rows[b]);
        }
    }
}

} // verus!
