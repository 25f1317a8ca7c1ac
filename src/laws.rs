use vstd::prelude::*;

use crate::store::{
    has_name, index_of, inserted, lemma_index_unique, lemma_inserted_unique, lookup, names_unique,
    removed, replay, Row,
};

verus! {

/// Saving a name that is not taken and then looking it up gives back exactly
/// the saved path.
pub proof fn lemma_save_then_get(rows: Seq<Row>, name: Seq<char>, path: Seq<char>)
    requires
        names_unique(rows),
        !has_name(rows, name),
    ensures
        lookup(inserted(rows, name, path), name) == Some(path),
{
    lemma_inserted_unique(rows, name, path);
    lemma_index_unique(rows.push((name, path)), name, rows.len() as int);
}

/// Saving the same name twice: the second save finds the name taken (and so
/// fails with `DuplicateName`), and the rows stay exactly as the first save
/// left them.
pub proof fn lemma_save_twice(rows: Seq<Row>, name: Seq<char>, first: Seq<char>, second: Seq<char>)
    requires
        names_unique(rows),
    ensures
        has_name(inserted(rows, name, first), name),
        inserted(inserted(rows, name, first), name, second) == inserted(rows, name, first),
{
    let t = inserted(rows, name, first);
    if has_name(rows, name) {
        assert(t == rows);
    } else {
        assert(t[rows.len() as int].0 == name);
    }
}

/// A name that no save carried is not found, whatever was saved before.
pub proof fn lemma_get_never_saved(ops: Seq<Row>, name: Seq<char>)
    requires
        forall|i: int| 0 <= i < ops.len() ==> #[trigger] ops[i].0 != name,
    ensures
        lookup(replay(ops), name) is None,
    decreases ops.len(),
{
    if ops.len() > 0 {
        let prefix = ops.drop_last();
        assert forall|i: int| 0 <= i < prefix.len() implies #[trigger] prefix[i].0 != name by {
            assert(prefix[i] == ops[i]);
        }
        lemma_get_never_saved(prefix, name);
        let r = replay(prefix);
        let last = ops.last();
        assert(last.0 != name);
        if !has_name(r, last.0) {
            let t = r.push(last);
            assert forall|i: int| 0 <= i < t.len() implies #[trigger] t[i].0 != name by {
                if i < r.len() {
                    assert(t[i] == r[i]);
                }
            }
        }
    }
}

/// Saving bookmarks with distinct names into an empty store lists them back
/// in the order they were saved.
pub proof fn lemma_list_in_save_order(ops: Seq<Row>)
    requires
        names_unique(ops),
    ensures
        replay(ops) == ops,
    decreases ops.len(),
{
    if ops.len() > 0 {
        let prefix = ops.drop_last();
        let last = ops.last();
        assert forall|i: int, j: int|
            0 <= i < prefix.len() && 0 <= j < prefix.len() && i != j implies #[trigger] prefix[i].0
            != #[trigger] prefix[j].0 by {
            assert(prefix[i] == ops[i] && prefix[j] == ops[j]);
        }
        lemma_list_in_save_order(prefix);
        assert(!has_name(prefix, last.0)) by {
            if has_name(prefix, last.0) {
                let k = choose|k: int| 0 <= k < prefix.len() && #[trigger] prefix[k].0 == last.0;
                assert(ops[k].0 == ops[ops.len() - 1].0);
            }
        }
        assert(prefix.push(last) =~= ops);
    }
}

/// After removing a name, looking it up finds nothing, whether or not the
/// name was there before.
pub proof fn lemma_remove_then_get(rows: Seq<Row>, name: Seq<char>)
    requires
        names_unique(rows),
    ensures
        lookup(removed(rows, name), name) is None,
{
    if has_name(rows, name) {
        let k = index_of(rows, name);
        let t = rows.remove(k);
        if has_name(t, name) {
            let i = choose|i: int| 0 <= i < t.len() && #[trigger] t[i].0 == name;
            let a = if i < k { i } else { i + 1 };
            assert(t[i] == rows[a]);
            assert(rows[a].0 == rows[k].0);
        }
    }
}

} // verus!
