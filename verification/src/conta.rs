//! Accounts: `id`, required `nome`, optional `banco`, a `saldo`, and an
//! optional `tipo`.  The balance travels through this layer as an opaque
//! 64-bit value chosen by the caller — no operation orders, filters or
//! computes on it.
//!
//! The table keeps its rows in ascending id order — ids are handed out in
//! increasing order and new rows go at the end — so the default listing
//! order, id descending, is the reverse of the stored order.

use vstd::prelude::*;
use crate::paging::{page, lemma_filter_all, lemma_filter_none};
use crate::text::{contains_ci, str_contains_ci, clone_opt_string};
use crate::valid_id;

verus! {

#[derive(Debug, PartialEq)]
pub struct Conta {
    pub id: i64,
    pub nome: String,
    pub banco: Option<String>,
    pub saldo: u64,
    pub tipo: Option<String>,
}

/// The row that `create` and `update` build from the caller's fields.
pub open spec fn conta_row(
    id: i64,
    nome: String,
    banco: Option<String>,
    saldo: u64,
    tipo: Option<String>,
) -> Conta {
    Conta { id, nome, banco, saldo, tipo }
}

impl Conta {
    /// A copy of the row, equal to the original.
    pub fn duplicate(&self) -> (r: Conta)
        ensures
            r == *self,
    {
        Conta {
            id: self.id,
            nome: self.nome.clone(),
            banco: clone_opt_string(&self.banco),
            saldo: self.saldo,
            tipo: clone_opt_string(&self.tipo),
        }
    }
}

/// The row the given id selects: the one whose `id` matches, if any.
/// Scanning from the end is equivalent, since ids are unique.
pub open spec fn lookup(s: Seq<Conta>, id: i64) -> Option<Conta>
    decreases s.len(),
{
    if s.len() == 0 {
        None
    } else if s.last().id == id {
        Some(s.last())
    } else {
        lookup(s.drop_last(), id)
    }
}

/// Whether a row passes the optional filters, applied conjunctively: the
/// name and bank filters by substring — a row with no bank never passes a
/// bank filter — and the type filter by exact match, as an absent column
/// never equals a bound value.
pub open spec fn conta_matches(
    c: Conta,
    nome: Option<String>,
    banco: Option<String>,
    tipo: Option<String>,
) -> bool {
    &&& match nome {
        None => true,
        Some(p) => contains_ci(c.nome@, p@),
    }
    &&& match banco {
        None => true,
        Some(p) => match c.banco {
            Some(b) => contains_ci(b@, p@),
            None => false,
        },
    }
    &&& match tipo {
        None => true,
        Some(p) => match c.tipo {
            Some(t) => t@ == p@,
            None => false,
        },
    }
}

/// What a list call returns before limit and offset: the rows that pass
/// the filter, in id-descending order.
pub open spec fn listing(
    s: Seq<Conta>,
    nome: Option<String>,
    banco: Option<String>,
    tipo: Option<String>,
) -> Seq<Conta> {
    s.filter(|c: Conta| conta_matches(c, nome, banco, tipo)).reverse()
}

/// Every row replaced: the rows whose id matches carry the new fields,
/// every other row is untouched.
pub open spec fn update_rows(
    s: Seq<Conta>,
    id: i64,
    nome: String,
    banco: Option<String>,
    saldo: u64,
    tipo: Option<String>,
) -> Seq<Conta> {
    s.map_values(
        |c: Conta| if c.id == id { conta_row(id, nome, banco, saldo, tipo) } else { c },
    )
}

/// The rows left after a delete: every row but the one whose id matches.
pub open spec fn remove_by_id(s: Seq<Conta>, id: i64) -> Seq<Conta>
    decreases s.len(),
{
    if s.len() == 0 {
        s
    } else if s.last().id == id {
        s.drop_last()
    } else {
        remove_by_id(s.drop_last(), id).push(s.last())
    }
}

pub struct ContaTable {
    pub rows: Vec<Conta>,
    pub next_id: i64,
}

impl ContaTable {
    /// Every stored id was assigned by the table and never twice: ids are
    /// below the next free one and strictly increase along the rows.
    pub open spec fn wf(self) -> bool {
        &&& 1 <= self.next_id
        &&& forall|i: int| 0 <= i < self.rows@.len() ==> valid_id(#[trigger] self.rows@[i].id, self.next_id)
        &&& forall|i: int, j: int|
            0 <= i < j < self.rows@.len() ==> self.rows@[i].id < self.rows@[j].id
    }

    /// An empty table; the first created row gets id 1.
    pub fn new() -> (t: ContaTable)
        ensures
            t.wf(),
            t.rows@ == Seq::<Conta>::empty(),
            t.next_id == 1,
    {
        ContaTable { rows: Vec::new(), next_id: 1 }
    }

    /// Inserts a new row with the given fields and returns its id, the
    /// next one in order.
    pub fn create(
        &mut self,
        nome: String,
        banco: Option<String>,
        saldo: u64,
        tipo: Option<String>,
    ) -> (id: i64)
        requires
            old(self).wf(),
            old(self).next_id < i64::MAX,
        ensures
            final(self).wf(),
            id == old(self).next_id,
            final(self).next_id == old(self).next_id + 1,
            final(self).rows@ == old(self).rows@.push(conta_row(id, nome, banco, saldo, tipo)),
    {
        let id = self.next_id;
        self.rows.push(Conta { id, nome, banco, saldo, tipo });
        self.next_id = id + 1;
        id
    }

    /// The row with the given id, or `None` if no row has it.
    #[verifier::loop_isolation(false)]
    pub fn get(&self, id: i64) -> (r: Option<Conta>)
        requires
            self.wf(),
        ensures
            r == lookup(self.rows@, id),
    {
        let mut i: usize = self.rows.len();
        proof {
            assert(self.rows@.subrange(0, self.rows@.len() as int) =~= self.rows@);
        }
        while i > 0
            invariant
                i <= self.rows@.len(),
                lookup(self.rows@, id) == lookup(self.rows@.subrange(0, i as int), id),
            decreases i,
        {
            i = i - 1;
            let c = &self.rows[i];
            if c.id == id {
                proof {
                    assert(self.rows@.subrange(0, i + 1).last() == self.rows@[i as int]);
                }
                return Some(c.duplicate());
            }
            proof {
                assert(self.rows@.subrange(0, i + 1).drop_last() =~= self.rows@.subrange(
                    0,
                    i as int,
                ));
            }
        }
        None
    }

    /// The rows that pass the optional name filter, newest first (id
    /// descending), with `offset` of them skipped and at most `limit`
    /// returned.
    #[verifier::loop_isolation(false)]
    pub fn list(
        &self,
        nome: Option<String>,
        banco: Option<String>,
        tipo: Option<String>,
        limit: Option<u32>,
        offset: Option<u32>,
    ) -> (r: Vec<Conta>)
        requires
            self.wf(),
        ensures
            r@ == page(listing(self.rows@, nome, banco, tipo), limit, offset),
    {
        let ghost pred = |c: Conta| conta_matches(c, nome, banco, tipo);
        let mut asc: Vec<Conta> = Vec::new();
        let mut i: usize = 0;
        while i < self.rows.len()
            invariant
                i <= self.rows@.len(),
                asc@ == self.rows@.subrange(0, i as int).filter(pred),
            decreases self.rows@.len() - i,
        {
            let c = &self.rows[i];
            let keep_nome = match &nome {
                None => true,
                Some(p) => str_contains_ci(c.nome.as_str(), p.as_str()),
            };
            let keep_banco = match &banco {
                None => true,
                Some(p) => match &c.banco {
                    Some(b) => str_contains_ci(b.as_str(), p.as_str()),
                    None => false,
                },
            };
            let keep_tipo = match &tipo {
                None => true,
                Some(p) => match &c.tipo {
                    Some(t) => *t == *p,
                    None => false,
                },
            };
            let keep = keep_nome && keep_banco && keep_tipo;
            proof {
                reveal(Seq::filter);
                assert(self.rows@.subrange(0, i + 1).drop_last() =~= self.rows@.subrange(
                    0,
                    i as int,
                ));
                assert(self.rows@.subrange(0, i + 1).last() == self.rows@[i as int]);
                assert(keep_nome == match nome {
                    None => true,
                    Some(p) => contains_ci(self.rows@[i as int].nome@, p@),
                });
                assert(keep_banco == match banco {
                    None => true,
                    Some(p) => match self.rows@[i as int].banco {
                        Some(b) => contains_ci(b@, p@),
                        None => false,
                    },
                });
                assert(keep_tipo == match tipo {
                    None => true,
                    Some(p) => match self.rows@[i as int].tipo {
                        Some(t) => t@ == p@,
                        None => false,
                    },
                });
                assert(keep == pred(self.rows@[i as int]));
            }
            if keep {
                asc.push(c.duplicate());
            }
            i = i + 1;
        }
        proof {
            assert(self.rows@.subrange(0, self.rows@.len() as int) =~= self.rows@);
        }
        let ghost full = asc@;
        let mut rev: Vec<Conta> = Vec::new();
        proof {
            assert(full.take(full.len() as int) =~= full);
            assert(full.skip(full.len() as int) =~= Seq::<Conta>::empty());
            assert(Seq::<Conta>::empty().reverse() =~= Seq::<Conta>::empty());
        }
        while asc.len() > 0
            invariant
                asc@.len() <= full.len(),
                asc@ == full.take(asc@.len() as int),
                rev@ == full.skip(asc@.len() as int).reverse(),
            decreases asc@.len(),
        {
            let ghost n = asc@.len() as int;
            let c = asc.pop().unwrap();
            rev.push(c);
            proof {
                assert(full.take(n).drop_last() =~= full.take(n - 1));
                assert(rev@ =~= full.skip(n - 1).reverse());
            }
        }
        proof {
            assert(full.skip(0) =~= full);
            assert(rev@ == listing(self.rows@, nome, banco, tipo));
        }
        let total = rev.len();
        let off: usize = match offset {
            Some(m) => {
                let m = m as usize;
                if m > total {
                    total
                } else {
                    m
                }
            },
            None => 0,
        };
        let end: usize = match limit {
            Some(n) => {
                let n = n as usize;
                if n > total - off {
                    total
                } else {
                    off + n
                }
            },
            None => total,
        };
        let mut out: Vec<Conta> = Vec::new();
        let mut t: usize = off;
        while t < end
            invariant
                off <= t <= end <= rev@.len(),
                out@ == rev@.subrange(off as int, t as int),
            decreases end - t,
        {
            out.push(rev[t].duplicate());
            proof {
                assert(out@ =~= rev@.subrange(off as int, t + 1));
            }
            t = t + 1;
        }
        proof {
            assert(out@ == page(listing(self.rows@, nome, banco, tipo), limit, offset));
        }
        out
    }

    /// Replaces all fields of the row with the given id; reports whether
    /// such a row existed.  On an absent id nothing changes and no error
    /// is raised: the call reports `false`.
    #[verifier::loop_isolation(false)]
    pub fn update(
        &mut self,
        id: i64,
        nome: String,
        banco: Option<String>,
        saldo: u64,
        tipo: Option<String>,
    ) -> (r: bool)
        requires
            old(self).wf(),
        ensures
            final(self).wf(),
            final(self).next_id == old(self).next_id,
            final(self).rows@ == update_rows(old(self).rows@, id, nome, banco, saldo, tipo),
            r == (lookup(old(self).rows@, id) is Some),
    {
        let ghost s = self.rows@;
        let mut i: usize = self.rows.len();
        proof {
            assert(s.subrange(0, s.len() as int) =~= s);
        }
        while i > 0
            invariant
                i <= self.rows@.len(),
                self.rows@ == s,
                self.next_id == old(self).next_id,
                lookup(s, id) == lookup(s.subrange(0, i as int), id),
                forall|j: int| i <= j < s.len() ==> s[j].id != id,
            decreases i,
        {
            i = i - 1;
            let hit = self.rows[i].id == id;
            proof {
                assert(s.subrange(0, i + 1).last() == s[i as int]);
                assert(s.subrange(0, i + 1).drop_last() =~= s.subrange(0, i as int));
            }
            if hit {
                self.rows[i] = Conta { id, nome, banco, saldo, tipo };
                proof {
                    assert(forall|j: int|
                        0 <= j < s.len() && j != i ==> #[trigger] s[j].id != id) by {
                        assert(forall|j: int|
                            0 <= j < i ==> #[trigger] s[j].id < s[i as int].id);
                    }
                    assert(self.rows@ =~= update_rows(s, id, nome, banco, saldo, tipo));
                    assert(forall|j: int|
                        0 <= j < self.rows@.len() ==> #[trigger] self.rows@[j].id == s[j].id);
                    assert(self.wf());
                }
                return true;
            }
        }
        proof {
            assert(forall|j: int| 0 <= j < s.len() ==> #[trigger] s[j].id != id);
            assert(self.rows@ =~= update_rows(s, id, nome, banco, saldo, tipo));
        }
        false
    }

    /// Removes the row with the given id; reports whether such a row
    /// existed.  Deleting an absent id changes nothing and raises no
    /// error: the call reports `false`.
    #[verifier::loop_isolation(false)]
    pub fn delete(&mut self, id: i64) -> (r: bool)
        requires
            old(self).wf(),
        ensures
            final(self).wf(),
            final(self).next_id == old(self).next_id,
            final(self).rows@ == remove_by_id(old(self).rows@, id),
            r == (lookup(old(self).rows@, id) is Some),
    {
        let ghost s = self.rows@;
        let mut i: usize = self.rows.len();
        proof {
            assert(s.subrange(0, s.len() as int) =~= s);
        }
        while i > 0
            invariant
                i <= self.rows@.len(),
                self.rows@ == s,
                self.next_id == old(self).next_id,
                lookup(s, id) == lookup(s.subrange(0, i as int), id),
                forall|j: int| i <= j < s.len() ==> s[j].id != id,
            decreases i,
        {
            i = i - 1;
            let hit = self.rows[i].id == id;
            proof {
                assert(s.subrange(0, i + 1).last() == s[i as int]);
                assert(s.subrange(0, i + 1).drop_last() =~= s.subrange(0, i as int));
            }
            if hit {
                self.rows.remove(i);
                proof {
                    lemma_remove_by_id_at(s, id, i as int);
                    assert(self.rows@ =~= remove_by_id(s, id));
                    assert(forall|j: int| 0 <= j < i ==> #[trigger] self.rows@[j] == s[j]);
                    assert(forall|j: int|
                        i <= j < self.rows@.len() ==> #[trigger] self.rows@[j] == s[j + 1]);
                    assert(self.wf());
                }
                return true;
            }
        }
        proof {
            lemma_remove_by_id_absent(s, id);
        }
        false
    }
}

/// Removing the id that stands at `idx` — and nowhere later — takes out
/// exactly that row.
proof fn lemma_remove_by_id_at(s: Seq<Conta>, id: i64, idx: int)
    requires
        0 <= idx < s.len(),
        s[idx].id == id,
        forall|j: int| idx < j < s.len() ==> s[j].id != id,
    ensures
        remove_by_id(s, id) == s.subrange(0, idx) + s.subrange(idx + 1, s.len() as int),
    decreases s.len(),
{
    if idx == s.len() - 1 {
        assert(remove_by_id(s, id) == s.drop_last());
        assert(s.drop_last() =~= s.subrange(0, idx) + s.subrange(idx + 1, s.len() as int));
    } else {
        assert(s.last().id != id);
        lemma_remove_by_id_at(s.drop_last(), id, idx);
        assert(s.drop_last().subrange(0, idx) =~= s.subrange(0, idx));
        assert(s.drop_last().subrange(idx + 1, s.len() - 1) =~= s.subrange(idx + 1, s.len() - 1));
        assert((s.subrange(0, idx) + s.subrange(idx + 1, s.len() - 1)).push(s.last()) =~= s.subrange(
            0,
            idx,
        ) + s.subrange(idx + 1, s.len() as int));
    }
}

/// Deleting an id that no row holds leaves the rows as they were.
proof fn lemma_remove_by_id_absent(s: Seq<Conta>, id: i64)
    requires
        forall|j: int| 0 <= j < s.len() ==> s[j].id != id,
    ensures
        remove_by_id(s, id) == s,
    decreases s.len(),
{
    if s.len() > 0 {
        lemma_remove_by_id_absent(s.drop_last(), id);
        assert(s.drop_last().push(s.last()) =~= s);
    }
}

/// A row just created is found again under its id, with exactly the
/// fields that were supplied.
pub proof fn lemma_created_is_found(s: Seq<Conta>, row: Conta)
    ensures
        lookup(s.push(row), row.id) == Some(row),
{
    assert(s.push(row).last() == row);
}

/// Creating a row changes what no other id selects.
pub proof fn lemma_create_preserves_others(s: Seq<Conta>, row: Conta, id: i64)
    requires
        id != row.id,
    ensures
        lookup(s.push(row), id) == lookup(s, id),
{
    assert(s.push(row).drop_last() =~= s);
}

/// After an update, the updated id selects the new fields if the row
/// existed and still nothing otherwise; an update of an absent id leaves
/// the rows as they were.
pub proof fn lemma_update_then_get(
    s: Seq<Conta>,
    id: i64,
    nome: String,
    banco: Option<String>,
    saldo: u64,
    tipo: Option<String>,
)
    requires
        forall|i: int, j: int| 0 <= i < j < s.len() ==> s[i].id != s[j].id,
    ensures
        lookup(update_rows(s, id, nome, banco, saldo, tipo), id) == match lookup(s, id) {
            Some(_) => Some(conta_row(id, nome, banco, saldo, tipo)),
            None => None,
        },
        lookup(s, id) is None ==> update_rows(s, id, nome, banco, saldo, tipo) == s,
    decreases s.len(),
{
    let t = update_rows(s, id, nome, banco, saldo, tipo);
    if s.len() == 0 {
        assert(t =~= s);
    } else {
        assert(t.len() == s.len());
        assert(t.drop_last() =~= update_rows(s.drop_last(), id, nome, banco, saldo, tipo));
        if s.last().id == id {
            assert(t.last() == conta_row(id, nome, banco, saldo, tipo));
        } else {
            assert(t.last() == s.last());
            lemma_update_then_get(s.drop_last(), id, nome, banco, saldo, tipo);
            if lookup(s, id) is None {
                assert forall|j: int| 0 <= j < s.len() implies t[j] == s[j] by {
                    if j < s.len() - 1 {
                        assert(t[j] == t.drop_last()[j]);
                        assert(s[j] == s.drop_last()[j]);
                    }
                }
                assert(t =~= s);
            }
        }
    }
}

/// After a delete, the deleted id selects nothing; deleting an absent id
/// leaves the rows as they were.
pub proof fn lemma_delete_then_get(s: Seq<Conta>, id: i64)
    requires
        forall|i: int, j: int| 0 <= i < j < s.len() ==> s[i].id != s[j].id,
    ensures
        lookup(remove_by_id(s, id), id) == None::<Conta>,
        lookup(s, id) is None ==> remove_by_id(s, id) == s,
    decreases s.len(),
{
    if s.len() > 0 {
        lemma_delete_then_get(s.drop_last(), id);
        if s.last().id == id {
            assert(forall|j: int| 0 <= j < s.drop_last().len() ==> s.drop_last()[j].id != id);
            lemma_lookup_absent(s.drop_last(), id);
        } else {
            assert(remove_by_id(s, id) == remove_by_id(s.drop_last(), id).push(s.last()));
            assert(remove_by_id(s, id).drop_last() =~= remove_by_id(s.drop_last(), id));
            if lookup(s, id) is None {
                assert(s.drop_last().push(s.last()) =~= s);
            }
        }
    }
}

/// With the id in no row, `lookup` finds nothing.
proof fn lemma_lookup_absent(s: Seq<Conta>, id: i64)
    requires
        forall|j: int| 0 <= j < s.len() ==> s[j].id != id,
    ensures
        lookup(s, id) is None,
    decreases s.len(),
{
    if s.len() > 0 {
        lemma_lookup_absent(s.drop_last(), id);
    }
}

/// A list call with no filters returns every row; on a table in its
/// stored order that listing runs id descending, newest first.
pub proof fn lemma_list_no_filter(s: Seq<Conta>)
    requires
        forall|i: int, j: int| 0 <= i < j < s.len() ==> s[i].id < s[j].id,
    ensures
        listing(s, None, None, None) == s.reverse(),
        forall|i: int, j: int|
            0 <= i < j < listing(s, None, None, None).len() ==> listing(s, None, None, None)[i].id
                > listing(s, None, None, None)[j].id,
{
    lemma_filter_all(s, |c: Conta| conta_matches(c, None, None, None));
}

/// A list call returns only rows that pass every supplied filter; if no
/// row passes them, the listing is empty.
pub proof fn lemma_list_filtered(
    s: Seq<Conta>,
    nome: Option<String>,
    banco: Option<String>,
    tipo: Option<String>,
)
    ensures
        forall|t: int|
            0 <= t < listing(s, nome, banco, tipo).len() ==> conta_matches(
                #[trigger] listing(s, nome, banco, tipo)[t],
                nome,
                banco,
                tipo,
            ),
        (forall|j: int| 0 <= j < s.len() ==> !conta_matches(#[trigger] s[j], nome, banco, tipo))
            ==> listing(s, nome, banco, tipo) == Seq::<Conta>::empty(),
{
    let pred = |c: Conta| conta_matches(c, nome, banco, tipo);
    let f = s.filter(pred);
    assert forall|t: int| 0 <= t < listing(s, nome, banco, tipo).len() implies conta_matches(
        #[trigger] listing(s, nome, banco, tipo)[t],
        nome,
        banco,
        tipo,
    ) by {
        assert(listing(s, nome, banco, tipo)[t] == f[f.len() - 1 - t]);
        Seq::lemma_filter_pred(s, pred, f.len() - 1 - t);
    }
    if forall|j: int| 0 <= j < s.len() ==> !conta_matches(#[trigger] s[j], nome, banco, tipo) {
        lemma_filter_none(s, pred);
        assert(listing(s, nome, banco, tipo) =~= Seq::<Conta>::empty());
    }
}

} // verus!
