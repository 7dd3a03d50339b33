//! Categories: `id`, required `nome`, optional `icone`.
//!
//! The table keeps its rows in ascending id order — ids are handed out in
//! increasing order and new rows go at the end — so the default listing
//! order, id descending, is the reverse of the stored order.

use vstd::prelude::*;
use crate::paging::{page, lemma_filter_all, lemma_filter_none};
use crate::text::{contains_ci, str_contains_ci, clone_opt_string};
use crate::valid_id;

verus! {

#[derive(Debug, PartialEq)]
pub struct Categoria {
    pub id: i64,
    pub nome: String,
    pub icone: Option<String>,
}

/// The row that `create` and `update` build from the caller's fields.
pub open spec fn cat_row(id: i64, nome: String, icone: Option<String>) -> Categoria {
    Categoria { id, nome, icone }
}

impl Categoria {
    /// A copy of the row, equal to the original.
    pub fn duplicate(&self) -> (r: Categoria)
        ensures
            r == *self,
    {
        Categoria { id: self.id, nome: self.nome.clone(), icone: clone_opt_string(&self.icone) }
    }
}

/// The row the given id selects: the one whose `id` matches, if any.
/// Scanning from the end is equivalent, since ids are unique.
pub open spec fn lookup(s: Seq<Categoria>, id: i64) -> Option<Categoria>
    decreases s.len(),
{
    if s.len() == 0 {
        None
    } else if s.last().id == id {
        Some(s.last())
    } else {
        lookup(s.drop_last(), id)
    }
}

/// Whether a row passes the optional name filter: no filter admits every
/// row, a filter admits the rows whose name contains it as a substring.
pub open spec fn categoria_matches(c: Categoria, nome: Option<String>) -> bool {
    match nome {
        None => true,
        Some(p) => contains_ci(c.nome@, p@),
    }
}

/// What a list call returns before limit and offset: the rows that pass
/// the filter, in id-descending order.
pub open spec fn listing(s: Seq<Categoria>, nome: Option<String>) -> Seq<Categoria> {
    s.filter(|c: Categoria| categoria_matches(c, nome)).reverse()
}

/// Every row replaced: the rows whose id matches carry the new fields,
/// every other row is untouched.
pub open spec fn update_rows(
    s: Seq<Categoria>,
    id: i64,
    nome: String,
    icone: Option<String>,
) -> Seq<Categoria> {
    s.map_values(|c: Categoria| if c.id == id { cat_row(id, nome, icone) } else { c })
}

/// The rows left after a delete: every row but the one whose id matches.
pub open spec fn remove_by_id(s: Seq<Categoria>, id: i64) -> Seq<Categoria>
    decreases s.len(),
{
    if s.len() == 0 {
        s
    } else if s.last().id == id {
        s.drop_last()
    } else {
        remove_by_id(s.drop_last(), id).push(s.last())
    }
}

pub struct CategoriaTable {
    pub rows: Vec<Categoria>,
    pub next_id: i64,
}

impl CategoriaTable {
    /// Every stored id was assigned by the table and never twice: ids are
    /// below the next free one and strictly increase along the rows.
    pub open spec fn wf(self) -> bool {
        &&& 1 <= self.next_id
        &&& forall|i: int| 0 <= i < self.rows@.len() ==> valid_id(#[trigger] self.rows@[i].id, self.next_id)
        &&& forall|i: int, j: int|
            0 <= i < j < self.rows@.len() ==> self.rows@[i].id < self.rows@[j].id
    }

    /// An empty table; the first created row gets id 1.
    pub fn new() -> (t: CategoriaTable)
        ensures
            t.wf(),
            t.rows@ == Seq::<Categoria>::empty(),
            t.next_id == 1,
    {
        CategoriaTable { rows: Vec::new(), next_id: 1 }
    }

    /// Inserts a new row with the given fields and returns its id, the
    /// next one in order.
    pub fn create(&mut self, nome: String, icone: Option<String>) -> (id: i64)
        requires
            old(self).wf(),
            old(self).next_id < i64::MAX,
        ensures
            final(self).wf(),
            id == old(self).next_id,
            final(self).next_id == old(self).next_id + 1,
            final(self).rows@ == old(self).rows@.push(cat_row(id, nome, icone)),
    {
        let id = self.next_id;
        self.rows.push(Categoria { id, nome, icone });
        self.next_id = id + 1;
        id
    }

    /// The row with the given id, or `None` if no row has it.
    #[verifier::loop_isolation(false)]
    pub fn get(&self, id: i64) -> (r: Option<Categoria>)
        requires
            self.wf(),
        ensures
            r == lookup(self.rows@, id),
    {
        let mut i: usize = self.rows.len();
        proof {
            assert(self.rows@.subrange(0, self.rows@.len() as int) =~= self.rows@);
        }
        while i > 0
            invariant
                i <= self.rows@.len(),
                lookup(self.rows@, id) == lookup(self.rows@.subrange(0, i as int), id),
            decreases i,
        {
            i = i - 1;
            let c = &self.rows[i];
            if c.id == id {
                proof {
                    assert(self.rows@.subrange(0, i + 1).last() == self.rows@[i as int]);
                }
                return Some(c.duplicate());
            }
            proof {
                assert(self.rows@.subrange(0, i + 1).drop_last() =~= self.rows@.subrange(
                    0,
                    i as int,
                ));
            }
        }
        None
    }

    /// The rows that pass the optional name filter, newest first (id
    /// descending), with `offset` of them skipped and at most `limit`
    /// returned.
    #[verifier::loop_isolation(false)]
    pub fn list(&self, nome: Option<String>, limit: Option<u32>, offset: Option<u32>) -> (r: Vec<
        Categoria,
    >)
        requires
            self.wf(),
        ensures
            r@ == page(listing(self.rows@, nome), limit, offset),
    {
        let ghost pred = |c: Categoria| categoria_matches(c, nome);
        let mut asc: Vec<Categoria> = Vec::new();
        let mut i: usize = 0;
        while i < self.rows.len()
            invariant
                i <= self.rows@.len(),
                asc@ == self.rows@.subrange(0, i as int).filter(pred),
            decreases self.rows@.len() - i,
        {
            let c = &self.rows[i];
            let keep = match &nome {
                None => true,
                Some(p) => str_contains_ci(c.nome.as_str(), p.as_str()),
            };
            proof {
                reveal(Seq::filter);
                assert(self.rows@.subrange(0, i + 1).drop_last() =~= self.rows@.subrange(
                    0,
                    i as int,
                ));
                assert(self.rows@.subrange(0, i + 1).last() == self.rows@[i as int]);
                assert(keep == pred(self.rows@[i as int]));
            }
            if keep {
                asc.push(c.duplicate());
            }
            i = i + 1;
        }
        proof {
            assert(self.rows@.subrange(0, self.rows@.len() as int) =~= self.rows@);
        }
        let ghost full = asc@;
        let mut rev: Vec<Categoria> = Vec::new();
        proof {
            assert(full.take(full.len() as int) =~= full);
            assert(full.skip(full.len() as int) =~= Seq::<Categoria>::empty());
            assert(Seq::<Categoria>::empty().reverse() =~= Seq::<Categoria>::empty());
        }
        while asc.len() > 0
            invariant
                asc@.len() <= full.len(),
                asc@ == full.take(asc@.len() as int),
                rev@ == full.skip(asc@.len() as int).reverse(),
            decreases asc@.len(),
        {
            let ghost n = asc@.len() as int;
            let c = asc.pop().unwrap();
            rev.push(c);
            proof {
                assert(full.take(n).drop_last() =~= full.take(n - 1));
                assert(rev@ =~= full.skip(n - 1).reverse());
            }
        }
        proof {
            assert(full.skip(0) =~= full);
            assert(rev@ == listing(self.rows@, nome));
        }
        let total = rev.len();
        let off: usize = match offset {
            Some(m) => {
                let m = m as usize;
                if m > total {
                    total
                } else {
                    m
                }
            },
            None => 0,
        };
        let end: usize = match limit {
            Some(n) => {
                let n = n as usize;
                if n > total - off {
                    total
                } else {
                    off + n
                }
            },
            None => total,
        };
        let mut out: Vec<Categoria> = Vec::new();
        let mut t: usize = off;
        while t < end
            invariant
                off <= t <= end <= rev@.len(),
                out@ == rev@.subrange(off as int, t as int),
            decreases end - t,
        {
            out.push(rev[t].duplicate());
            proof {
                assert(out@ =~= rev@.subrange(off as int, t + 1));
            }
            t = t + 1;
        }
        proof {
            assert(out@ == page(listing(self.rows@, nome), limit, offset));
        }
        out
    }

    /// Replaces all fields of the row with the given id; reports whether
    /// such a row existed.  On an absent id nothing changes and no error
    /// is raised: the call reports `false`.
    #[verifier::loop_isolation(false)]
    pub fn update(&mut self, id: i64, nome: String, icone: Option<String>) -> (r: bool)
        requires
            old(self).wf(),
        ensures
            final(self).wf(),
            final(self).next_id == old(self).next_id,
            final(self).rows@ == update_rows(old(self).rows@, id, nome, icone),
            r == (lookup(old(self).rows@, id) is Some),
    {
        let ghost s = self.rows@;
        let mut i: usize = self.rows.len();
        proof {
            assert(s.subrange(0, s.len() as int) =~= s);
        }
        while i > 0
            invariant
                i <= self.rows@.len(),
                self.rows@ == s,
                self.next_id == old(self).next_id,
                lookup(s, id) == lookup(s.subrange(0, i as int), id),
                forall|j: int| i <= j < s.len() ==> s[j].id != id,
            decreases i,
        {
            i = i - 1;
            let hit = self.rows[i].id == id;
            proof {
                assert(s.subrange(0, i + 1).last() == s[i as int]);
                assert(s.subrange(0, i + 1).drop_last() =~= s.subrange(0, i as int));
            }
            if hit {
                self.rows[i] = Categoria { id, nome, icone };
                proof {
                    assert(forall|j: int|
                        0 <= j < s.len() && j != i ==> #[trigger] s[j].id != id) by {
                        assert(forall|j: int|
                            0 <= j < i ==> #[trigger] s[j].id < s[i as int].id);
                    }
                    assert(self.rows@ =~= update_rows(s, id, nome, icone));
                    assert(forall|j: int|
                        0 <= j < self.rows@.len() ==> #[trigger] self.rows@[j].id == s[j].id);
                    assert(self.wf());
                }
                return true;
            }
        }
        proof {
            assert(forall|j: int| 0 <= j < s.len() ==> #[trigger] s[j].id != id);
            assert(self.rows@ =~= update_rows(s, id, nome, icone));
        }
        false
    }

    /// Removes the row with the given id; reports whether such a row
    /// existed.  Deleting an absent id changes nothing and raises no
    /// error: the call reports `false`.
    #[verifier::loop_isolation(false)]
    pub fn delete(&mut self, id: i64) -> (r: bool)
        requires
            old(self).wf(),
        ensures
            final(self).wf(),
            final(self).next_id == old(self).next_id,
            final(self).rows@ == remove_by_id(old(self).rows@, id),
            r == (lookup(old(self).rows@, id) is Some),
    {
        let ghost s = self.rows@;
        let mut i: usize = self.rows.len();
        proof {
            assert(s.subrange(0, s.len() as int) =~= s);
        }
        while i > 0
            invariant
                i <= self.rows@.len(),
                self.rows@ == s,
                self.next_id == old(self).next_id,
                lookup(s, id) == lookup(s.subrange(0, i as int), id),
                forall|j: int| i <= j < s.len() ==> s[j].id != id,
            decreases i,
        {
            i = i - 1;
            let hit = self.rows[i].id == id;
            proof {
                assert(s.subrange(0, i + 1).last() == s[i as int]);
                assert(s.subrange(0, i + 1).drop_last() =~= s.subrange(0, i as int));
            }
            if hit {
                self.rows.remove(i);
                proof {
                    lemma_remove_by_id_at(s, id, i as int);
                    assert(self.rows@ =~= remove_by_id(s, id));
                    assert(forall|j: int| 0 <= j < i ==> #[trigger] self.rows@[j] == s[j]);
                    assert(forall|j: int|
                        i <= j < self.rows@.len() ==> #[trigger] self.rows@[j] == s[j + 1]);
                    assert(self.wf());
                }
                return true;
            }
        }
        proof {
            lemma_remove_by_id_absent(s, id);
        }
        false
    }
}

/// Removing the id that stands at `idx` — and nowhere later — takes out
/// exactly that row.
proof fn lemma_remove_by_id_at(s: Seq<Categoria>, id: i64, idx: int)
    requires
        0 <= idx < s.len(),
        s[idx].id == id,
        forall|j: int| idx < j < s.len() ==> s[j].id != id,
    ensures
        remove_by_id(s, id) == s.subrange(0, idx) + s.subrange(idx + 1, s.len() as int),
    decreases s.len(),
{
    if idx == s.len() - 1 {
        assert(remove_by_id(s, id) == s.drop_last());
        assert(s.drop_last() =~= s.subrange(0, idx) + s.subrange(idx + 1, s.len() as int));
    } else {
        assert(s.last().id != id);
        lemma_remove_by_id_at(s.drop_last(), id, idx);
        assert(s.drop_last().subrange(0, idx) =~= s.subrange(0, idx));
        assert(s.drop_last().subrange(idx + 1, s.len() - 1) =~= s.subrange(idx + 1, s.len() - 1));
        assert((s.subrange(0, idx) + s.subrange(idx + 1, s.len() - 1)).push(s.last()) =~= s.subrange(
            0,
            idx,
        ) + s.subrange(idx + 1, s.len() as int));
    }
}

/// Deleting an id that no row holds leaves the rows as they were.
proof fn lemma_remove_by_id_absent(s: Seq<Categoria>, id: i64)
    requires
        forall|j: int| 0 <= j < s.len() ==> s[j].id != id,
    ensures
        remove_by_id(s, id) == s,
    decreases s.len(),
{
    if s.len() > 0 {
        lemma_remove_by_id_absent(s.drop_last(), id);
        assert(s.drop_last().push(s.last()) =~= s);
    }
}

/// A row just created is found again under its id, with exactly the
/// fields that were supplied.
pub proof fn lemma_created_is_found(s: Seq<Categoria>, row: Categoria)
    ensures
        lookup(s.push(row), row.id) == Some(row),
{
    assert(s.push(row).last() == row);
}

/// Creating a row changes what no other id selects.
pub proof fn lemma_create_preserves_others(s: Seq<Categoria>, row: Categoria, id: i64)
    requires
        id != row.id,
    ensures
        lookup(s.push(row), id) == lookup(s, id),
{
    assert(s.push(row).drop_last() =~= s);
}

/// After an update, the updated id selects the new fields if the row
/// existed and still nothing otherwise; an update of an absent id leaves
/// the rows as they were.
pub proof fn lemma_update_then_get(s: Seq<Categoria>, id: i64, nome: String, icone: Option<String>)
    requires
        forall|i: int, j: int| 0 <= i < j < s.len() ==> s[i].id != s[j].id,
    ensures
        lookup(update_rows(s, id, nome, icone), id) == match lookup(s, id) {
            Some(_) => Some(cat_row(id, nome, icone)),
            None => None,
        },
        lookup(s, id) is None ==> update_rows(s, id, nome, icone) == s,
    decreases s.len(),
{
    let t = update_rows(s, id, nome, icone);
    if s.len() == 0 {
        assert(t =~= s);
    } else {
        assert(t.len() == s.len());
        assert(t.drop_last() =~= update_rows(s.drop_last(), id, nome, icone));
        if s.last().id == id {
            assert(t.last() == cat_row(id, nome, icone));
        } else {
            assert(t.last() == s.last());
            lemma_update_then_get(s.drop_last(), id, nome, icone);
            if lookup(s, id) is None {
                assert forall|j: int| 0 <= j < s.len() implies t[j] == s[j] by {
                    if j < s.len() - 1 {
                        assert(t[j] == t.drop_last()[j]);
                        assert(s[j] == s.drop_last()[j]);
                    }
                }
                assert(t =~= s);
            }
        }
    }
}

/// After a delete, the deleted id selects nothing; deleting an absent id
/// leaves the rows as they were.
pub proof fn lemma_delete_then_get(s: Seq<Categoria>, id: i64)
    requires
        forall|i: int, j: int| 0 <= i < j < s.len() ==> s[i].id != s[j].id,
    ensures
        lookup(remove_by_id(s, id), id) == None::<Categoria>,
        lookup(s, id) is None ==> remove_by_id(s, id) == s,
    decreases s.len(),
{
    if s.len() > 0 {
        lemma_delete_then_get(s.drop_last(), id);
        if s.last().id == id {
            assert(forall|j: int| 0 <= j < s.drop_last().len() ==> s.drop_last()[j].id != id);
            lemma_lookup_absent(s.drop_last(), id);
        } else {
            assert(remove_by_id(s, id) == remove_by_id(s.drop_last(), id).push(s.last()));
            assert(remove_by_id(s, id).drop_last() =~= remove_by_id(s.drop_last(), id));
            if lookup(s, id) is None {
                assert(s.drop_last().push(s.last()) =~= s);
            }
        }
    }
}

/// With the id in no row, `lookup` finds nothing.
proof fn lemma_lookup_absent(s: Seq<Categoria>, id: i64)
    requires
        forall|j: int| 0 <= j < s.len() ==> s[j].id != id,
    ensures
        lookup(s, id) is None,
    decreases s.len(),
{
    if s.len() > 0 {
        lemma_lookup_absent(s.drop_last(), id);
    }
}

/// A list call with no filters returns every row; on a table in its
/// stored order that listing runs id descending, newest first.
pub proof fn lemma_list_no_filter(s: Seq<Categoria>)
    requires
        forall|i: int, j: int| 0 <= i < j < s.len() ==> s[i].id < s[j].id,
    ensures
        listing(s, None) == s.reverse(),
        forall|i: int, j: int|
            0 <= i < j < listing(s, None).len() ==> listing(s, None)[i].id > listing(s, None)[j].id,
{
    lemma_filter_all(s, |c: Categoria| categoria_matches(c, None));
}

/// A list call with a name filter returns only rows whose name contains
/// the filter text; a text contained in no row's name returns the empty
/// listing.
pub proof fn lemma_list_filtered(s: Seq<Categoria>, p: String)
    ensures
        forall|t: int|
            0 <= t < listing(s, Some(p)).len() ==> contains_ci(
                #[trigger] listing(s, Some(p))[t].nome@,
                p@,
            ),
        (forall|j: int| 0 <= j < s.len() ==> !contains_ci(#[trigger] s[j].nome@, p@))
            ==> listing(s, Some(p)) == Seq::<Categoria>::empty(),
{
    let pred = |c: Categoria| categoria_matches(c, Some(p));
    let f = s.filter(pred);
    assert forall|t: int| 0 <= t < listing(s, Some(p)).len() implies contains_ci(
        #[trigger] listing(s, Some(p))[t].nome@,
        p@,
    ) by {
        assert(listing(s, Some(p))[t] == f[f.len() - 1 - t]);
        Seq::lemma_filter_pred(s, pred, f.len() - 1 - t);
    }
    if forall|j: int| 0 <= j < s.len() ==> !contains_ci(#[trigger] s[j].nome@, p@) {
        lemma_filter_none(s, pred);
        assert(listing(s, Some(p)) =~= Seq::<Categoria>::empty());
    }
}

} // verus!
