//! Transactions: `id`, a `valor`, a `data`, optional `categoria_id` and
//! `conta_id` references (unchecked — they may point at rows that do not
//! exist), an optional `descricao` and a required `tipo`.
//!
//! The default listing order is by date, newest first, so the table keeps
//! its rows sorted by date ascending — among equal dates by id, which is
//! the order the storage engine falls back to — and lists them reversed.
//! A new or updated row is placed at its position in that order.  The
//! amount travels through this layer as an opaque 64-bit value chosen by
//! the caller: no operation orders, filters or computes on it.

use vstd::prelude::*;
use crate::paging::{page, lemma_filter_all, lemma_filter_none};
use crate::text::{lex_lt, lex_le, str_lex_lt, str_lex_le, clone_opt_string};
use crate::valid_id;

verus! {

#[derive(Debug, PartialEq)]
pub struct Transacao {
    pub id: i64,
    pub valor: u64,
    pub data: String,
    pub categoria_id: Option<i64>,
    pub conta_id: Option<i64>,
    pub descricao: Option<String>,
    pub tipo: String,
}

/// The row that `create` and `update` build from the caller's fields.
pub open spec fn tr_row(
    id: i64,
    valor: u64,
    data: String,
    categoria_id: Option<i64>,
    conta_id: Option<i64>,
    descricao: Option<String>,
    tipo: String,
) -> Transacao {
    Transacao { id, valor, data, categoria_id, conta_id, descricao, tipo }
}

impl Transacao {
    /// A copy of the row, equal to the original.
    pub fn duplicate(&self) -> (r: Transacao)
        ensures
            r == *self,
    {
        Transacao {
            id: self.id,
            valor: self.valor,
            data: self.data.clone(),
            categoria_id: self.categoria_id,
            conta_id: self.conta_id,
            descricao: clone_opt_string(&self.descricao),
            tipo: self.tipo.clone(),
        }
    }
}

/// The stored order: by date, and among equal dates by id, the order ids
/// were assigned in.
pub open spec fn row_lt(a: Transacao, b: Transacao) -> bool {
    ||| lex_lt(a.data@, b.data@)
    ||| (a.data@ == b.data@ && a.id < b.id)
}

/// Compares two rows in the stored order.
pub fn row_lt_exec(a: &Transacao, b: &Transacao) -> (r: bool)
    ensures
        r == row_lt(*a, *b),
{
    if str_lex_lt(a.data.as_str(), b.data.as_str()) {
        true
    } else {
        a.data == b.data && a.id < b.id
    }
}

/// The order `lex_lt` is total: two sequences are ordered one way or the
/// other, or they are equal.
proof fn lemma_lex_total(a: Seq<char>, b: Seq<char>)
    ensures
        lex_lt(a, b) || lex_lt(b, a) || a == b,
    decreases a.len(),
{
    if a.len() == 0 && b.len() == 0 {
        assert(a =~= b);
    } else if a.len() != 0 && b.len() != 0 {
        if a.first() == b.first() {
            lemma_lex_total(a.drop_first(), b.drop_first());
            if a.drop_first() == b.drop_first() {
                assert(a.drop_first().len() == a.len() - 1);
                assert(b.drop_first().len() == b.len() - 1);
                assert(a.len() == b.len());
                assert forall|j: int| 0 <= j < a.len() implies a[j] == b[j] by {
                    if j > 0 {
                        assert(a[j] == a.drop_first()[j - 1]);
                        assert(b[j] == b.drop_first()[j - 1]);
                    }
                }
                assert(a =~= b);
            }
        }
    } else if a.len() == 0 {
        assert(lex_lt(a, b));
    } else {
        assert(lex_lt(b, a));
    }
}

/// The order `lex_lt` is transitive.
proof fn lemma_lex_trans(a: Seq<char>, b: Seq<char>, c: Seq<char>)
    requires
        lex_lt(a, b),
        lex_lt(b, c),
    ensures
        lex_lt(a, c),
    decreases a.len(),
{
    if a.len() != 0 {
        if a.first() == b.first() {
            if b.first() == c.first() {
                lemma_lex_trans(a.drop_first(), b.drop_first(), c.drop_first());
            }
        }
    }
}

/// Rows with distinct ids are ordered one way or the other.
proof fn lemma_row_lt_total(a: Transacao, b: Transacao)
    requires
        a.id != b.id,
    ensures
        row_lt(a, b) || row_lt(b, a),
{
    lemma_lex_total(a.data@, b.data@);
}

/// The stored order is transitive.
proof fn lemma_row_lt_trans(a: Transacao, b: Transacao, c: Transacao)
    requires
        row_lt(a, b),
        row_lt(b, c),
    ensures
        row_lt(a, c),
{
    if lex_lt(a.data@, b.data@) && lex_lt(b.data@, c.data@) {
        lemma_lex_trans(a.data@, b.data@, c.data@);
    }
}

/// The row the given id selects: the one whose `id` matches, if any.
pub open spec fn lookup(s: Seq<Transacao>, id: i64) -> Option<Transacao>
    decreases s.len(),
{
    if s.len() == 0 {
        None
    } else if s.last().id == id {
        Some(s.last())
    } else {
        lookup(s.drop_last(), id)
    }
}

/// Where a row lands in the stored order: after every row it does not
/// precede, before the rest.
pub open spec fn sorted_insert(s: Seq<Transacao>, r: Transacao) -> Seq<Transacao>
    decreases s.len(),
{
    if s.len() == 0 {
        seq![r]
    } else if row_lt(s.last(), r) {
        s.push(r)
    } else {
        sorted_insert(s.drop_last(), r).push(s.last())
    }
}

/// The rows left after a delete: every row but the one whose id matches.
pub open spec fn remove_by_id(s: Seq<Transacao>, id: i64) -> Seq<Transacao>
    decreases s.len(),
{
    if s.len() == 0 {
        s
    } else if s.last().id == id {
        s.drop_last()
    } else {
        remove_by_id(s.drop_last(), id).push(s.last())
    }
}

/// With no row ordered after `r` from index `pos` on and the row just
/// before `pos` ordered before it, `r` lands exactly at `pos`.
proof fn lemma_sorted_insert_at(s: Seq<Transacao>, r: Transacao, pos: int)
    requires
        0 <= pos <= s.len(),
        forall|j: int| pos <= j < s.len() ==> !row_lt(#[trigger] s[j], r),
        pos > 0 ==> row_lt(s[pos - 1], r),
    ensures
        sorted_insert(s, r) == s.insert(pos, r),
    decreases s.len(),
{
    if s.len() == 0 {
        assert(sorted_insert(s, r) =~= s.insert(0, r));
    } else if pos == s.len() {
        assert(sorted_insert(s, r) == s.push(r));
        assert(s.push(r) =~= s.insert(pos, r));
    } else {
        assert(!row_lt(s.last(), r));
        lemma_sorted_insert_at(s.drop_last(), r, pos);
        assert(sorted_insert(s, r) == s.drop_last().insert(pos, r).push(s.last()));
        assert(s.drop_last().insert(pos, r).push(s.last()) =~= s.insert(pos, r));
    }
}

/// Places `r` at its position in the stored order and reports that
/// position.
fn insert_sorted(rows: &mut Vec<Transacao>, r: Transacao) -> (pos: usize)
    ensures
        pos <= old(rows)@.len(),
        final(rows)@ == sorted_insert(old(rows)@, r),
        final(rows)@ == old(rows)@.insert(pos as int, r),
        forall|j: int| pos <= j < old(rows)@.len() ==> !row_lt(#[trigger] old(rows)@[j], r),
        pos > 0 ==> row_lt(old(rows)@[pos - 1], r),
{
    let ghost s = rows@;
    let mut i: usize = rows.len();
    #[verifier::loop_isolation(false)]
    while i > 0 && !row_lt_exec(&rows[i - 1], &r)
        invariant
            i <= s.len(),
            rows@ == s,
            forall|j: int| i <= j < s.len() ==> !row_lt(#[trigger] s[j], r),
        decreases i,
    {
        i = i - 1;
    }
    rows.insert(i, r);
    proof {
        lemma_sorted_insert_at(s, r, i as int);
    }
    i
}


/// Whether a row passes the optional filters, applied conjunctively: the
/// type filter by exact match, the reference filters by exact match on a
/// present reference — a row with no reference never passes one — and the
/// date bounds inclusively.
pub open spec fn transacao_matches(
    t: Transacao,
    tipo: Option<String>,
    categoria_id: Option<i64>,
    conta_id: Option<i64>,
    data_inicio: Option<String>,
    data_fim: Option<String>,
) -> bool {
    &&& match tipo {
        None => true,
        Some(p) => t.tipo@ == p@,
    }
    &&& match categoria_id {
        None => true,
        Some(c) => t.categoria_id == Some(c),
    }
    &&& match conta_id {
        None => true,
        Some(c) => t.conta_id == Some(c),
    }
    &&& match data_inicio {
        None => true,
        Some(d) => lex_le(d@, t.data@),
    }
    &&& match data_fim {
        None => true,
        Some(d) => lex_le(t.data@, d@),
    }
}

/// What a list call returns before limit and offset: the rows that pass
/// the filters, newest date first.
pub open spec fn listing(
    s: Seq<Transacao>,
    tipo: Option<String>,
    categoria_id: Option<i64>,
    conta_id: Option<i64>,
    data_inicio: Option<String>,
    data_fim: Option<String>,
) -> Seq<Transacao> {
    s.filter(
        |t: Transacao| transacao_matches(t, tipo, categoria_id, conta_id, data_inicio, data_fim),
    ).reverse()
}

pub struct TransacaoTable {
    pub rows: Vec<Transacao>,
    pub next_id: i64,
}

/// An inserted row with an id no other row holds keeps the rows sorted,
/// their ids distinct and every id one the table assigned.
proof fn lemma_insert_wf(s: Seq<Transacao>, r: Transacao, t: Seq<Transacao>, pos: int, next: i64)
    requires
        forall|i: int| 0 <= i < s.len() ==> valid_id(#[trigger] s[i].id, next),
        forall|i: int, j: int| 0 <= i < j < s.len() ==> s[i].id != s[j].id,
        forall|i: int, j: int| 0 <= i < j < s.len() ==> row_lt(s[i], s[j]),
        forall|j: int| 0 <= j < s.len() ==> (#[trigger] s[j].id) != r.id,
        valid_id(r.id, next),
        0 <= pos <= s.len(),
        t == s.insert(pos, r),
        forall|j: int| pos <= j < s.len() ==> !row_lt(#[trigger] s[j], r),
        pos > 0 ==> row_lt(s[pos - 1], r),
    ensures
        forall|i: int| 0 <= i < t.len() ==> valid_id(#[trigger] t[i].id, next),
        forall|i: int, j: int| 0 <= i < j < t.len() ==> t[i].id != t[j].id,
        forall|i: int, j: int| 0 <= i < j < t.len() ==> row_lt(t[i], t[j]),
{
    s.insert_ensures(pos, r);
    assert(forall|k: int| 0 <= k < pos ==> #[trigger] t[k] == s[k]);
    assert(forall|k: int| pos < k < t.len() ==> #[trigger] t[k] == s[k - 1]);
    assert(t[pos] == r);
    assert forall|i: int, j: int| 0 <= i < j < t.len() implies row_lt(t[i], t[j]) by {
        if i == pos {
            lemma_row_lt_total(r, s[j - 1]);
        } else if j == pos {
            if i < pos - 1 {
                lemma_row_lt_trans(s[i], s[pos - 1], r);
            }
        }
    }
}

impl TransacaoTable {
    /// Every stored id was assigned by the table and never twice, and the
    /// rows stand sorted in the stored order.
    pub open spec fn wf(self) -> bool {
        &&& 1 <= self.next_id
        &&& forall|i: int|
            0 <= i < self.rows@.len() ==> valid_id(#[trigger] self.rows@[i].id, self.next_id)
        &&& forall|i: int, j: int|
            0 <= i < j < self.rows@.len() ==> self.rows@[i].id != self.rows@[j].id
        &&& forall|i: int, j: int|
            0 <= i < j < self.rows@.len() ==> row_lt(self.rows@[i], self.rows@[j])
    }

    /// An empty table; the first created row gets id 1.
    pub fn new() -> (t: TransacaoTable)
        ensures
            t.wf(),
            t.rows@ == Seq::<Transacao>::empty(),
            t.next_id == 1,
    {
        TransacaoTable { rows: Vec::new(), next_id: 1 }
    }

    /// Inserts a new row with the given fields at its place in the stored
    /// order and returns its id, the next one in order.
    pub fn create(
        &mut self,
        valor: u64,
        data: String,
        categoria_id: Option<i64>,
        conta_id: Option<i64>,
        descricao: Option<String>,
        tipo: String,
    ) -> (id: i64)
        requires
            old(self).wf(),
            old(self).next_id < i64::MAX,
        ensures
            final(self).wf(),
            id == old(self).next_id,
            final(self).next_id == old(self).next_id + 1,
            final(self).rows@ == sorted_insert(
                old(self).rows@,
                tr_row(id, valor, data, categoria_id, conta_id, descricao, tipo),
            ),
    {
        let id = self.next_id;
        let row = Transacao { id, valor, data, categoria_id, conta_id, descricao, tipo };
        let ghost s = self.rows@;
        let ghost r = row;
        let pos = insert_sorted(&mut self.rows, row);
        self.next_id = id + 1;
        proof {
            lemma_insert_wf(s, r, self.rows@, pos as int, self.next_id);
        }
        id
    }

    /// The row with the given id, or `None` if no row has it.
    #[verifier::loop_isolation(false)]
    pub fn get(&self, id: i64) -> (r: Option<Transacao>)
        requires
            self.wf(),
        ensures
            r == lookup(self.rows@, id),
    {
        let mut i: usize = self.rows.len();
        proof {
            assert(self.rows@.subrange(0, self.rows@.len() as int) =~= self.rows@);
        }
        while i > 0
            invariant
                i <= self.rows@.len(),
                lookup(self.rows@, id) == lookup(self.rows@.subrange(0, i as int), id),
            decreases i,
        {
            i = i - 1;
            let c = &self.rows[i];
            if c.id == id {
                proof {
                    assert(self.rows@.subrange(0, i + 1).last() == self.rows@[i as int]);
                }
                return Some(c.duplicate());
            }
            proof {
                assert(self.rows@.subrange(0, i + 1).drop_last() =~= self.rows@.subrange(
                    0,
                    i as int,
                ));
            }
        }
        None
    }

    /// The rows that pass the optional filters, newest date first, with
    /// `offset` of them skipped and at most `limit` returned.
    #[verifier::loop_isolation(false)]
    pub fn list(
        &self,
        tipo: Option<String>,
        categoria_id: Option<i64>,
        conta_id: Option<i64>,
        data_inicio: Option<String>,
        data_fim: Option<String>,
        limit: Option<u32>,
        offset: Option<u32>,
    ) -> (r: Vec<Transacao>)
        requires
            self.wf(),
        ensures
            r@ == page(
                listing(self.rows@, tipo, categoria_id, conta_id, data_inicio, data_fim),
                limit,
                offset,
            ),
    {
        let ghost pred = |t: Transacao|
            transacao_matches(t, tipo, categoria_id, conta_id, data_inicio, data_fim);
        let mut asc: Vec<Transacao> = Vec::new();
        let mut i: usize = 0;
        while i < self.rows.len()
            invariant
                i <= self.rows@.len(),
                asc@ == self.rows@.subrange(0, i as int).filter(pred),
            decreases self.rows@.len() - i,
        {
            let c = &self.rows[i];
            let keep_tipo = match &tipo {
                None => true,
                Some(p) => c.tipo == *p,
            };
            let keep_categoria = match &categoria_id {
                None => true,
                Some(cid) => match c.categoria_id {
                    Some(x) => x == *cid,
                    None => false,
                },
            };
            let keep_conta = match &conta_id {
                None => true,
                Some(cid) => match c.conta_id {
                    Some(x) => x == *cid,
                    None => false,
                },
            };
            let keep_inicio = match &data_inicio {
                None => true,
                Some(d) => str_lex_le(d.as_str(), c.data.as_str()),
            };
            let keep_fim = match &data_fim {
                None => true,
                Some(d) => str_lex_le(c.data.as_str(), d.as_str()),
            };
            let keep = keep_tipo && keep_categoria && keep_conta && keep_inicio && keep_fim;
            proof {
                reveal(Seq::filter);
                assert(self.rows@.subrange(0, i + 1).drop_last() =~= self.rows@.subrange(
                    0,
                    i as int,
                ));
                assert(self.rows@.subrange(0, i + 1).last() == self.rows@[i as int]);
                assert(keep == pred(self.rows@[i as int]));
            }
            if keep {
                asc.push(c.duplicate());
            }
            i = i + 1;
        }
        proof {
            assert(self.rows@.subrange(0, self.rows@.len() as int) =~= self.rows@);
        }
        let ghost full = asc@;
        let mut rev: Vec<Transacao> = Vec::new();
        proof {
            assert(full.take(full.len() as int) =~= full);
            assert(full.skip(full.len() as int) =~= Seq::<Transacao>::empty());
            assert(Seq::<Transacao>::empty().reverse() =~= Seq::<Transacao>::empty());
        }
        while asc.len() > 0
            invariant
                asc@.len() <= full.len(),
                asc@ == full.take(asc@.len() as int),
                rev@ == full.skip(asc@.len() as int).reverse(),
            decreases asc@.len(),
        {
            let ghost n = asc@.len() as int;
            let c = asc.pop().unwrap();
            rev.push(c);
            proof {
                assert(full.take(n).drop_last() =~= full.take(n - 1));
                assert(rev@ =~= full.skip(n - 1).reverse());
            }
        }
        proof {
            assert(full.skip(0) =~= full);
            assert(rev@ == listing(self.rows@, tipo, categoria_id, conta_id, data_inicio, data_fim));
        }
        let total = rev.len();
        let off: usize = match offset {
            Some(m) => {
                let m = m as usize;
                if m > total {
                    total
                } else {
                    m
                }
            },
            None => 0,
        };
        let end: usize = match limit {
            Some(n) => {
                let n = n as usize;
                if n > total - off {
                    total
                } else {
                    off + n
                }
            },
            None => total,
        };
        let mut out: Vec<Transacao> = Vec::new();
        let mut t: usize = off;
        while t < end
            invariant
                off <= t <= end <= rev@.len(),
                out@ == rev@.subrange(off as int, t as int),
            decreases end - t,
        {
            out.push(rev[t].duplicate());
            proof {
                assert(out@ =~= rev@.subrange(off as int, t + 1));
            }
            t = t + 1;
        }
        proof {
            assert(out@ == page(
                listing(self.rows@, tipo, categoria_id, conta_id, data_inicio, data_fim),
                limit,
                offset,
            ));
        }
        out
    }

    /// Replaces all fields of the row with the given id, moving it to the
    /// place in the stored order its new date calls for; reports whether
    /// such a row existed.  On an absent id nothing changes and no error
    /// is raised: the call reports `false`.
    #[verifier::loop_isolation(false)]
    pub fn update(
        &mut self,
        id: i64,
        valor: u64,
        data: String,
        categoria_id: Option<i64>,
        conta_id: Option<i64>,
        descricao: Option<String>,
        tipo: String,
    ) -> (r: bool)
        requires
            old(self).wf(),
        ensures
            final(self).wf(),
            final(self).next_id == old(self).next_id,
            r == (lookup(old(self).rows@, id) is Some),
            lookup(old(self).rows@, id) is None ==> final(self).rows@ == old(self).rows@,
            lookup(old(self).rows@, id) is Some ==> final(self).rows@ == sorted_insert(
                remove_by_id(old(self).rows@, id),
                tr_row(id, valor, data, categoria_id, conta_id, descricao, tipo),
            ),
    {
        let ghost s = self.rows@;
        let mut i: usize = self.rows.len();
        proof {
            assert(s.subrange(0, s.len() as int) =~= s);
        }
        while i > 0
            invariant
                i <= self.rows@.len(),
                self.rows@ == s,
                self.next_id == old(self).next_id,
                lookup(s, id) == lookup(s.subrange(0, i as int), id),
                forall|j: int| i <= j < s.len() ==> s[j].id != id,
            decreases i,
        {
            i = i - 1;
            let hit = self.rows[i].id == id;
            proof {
                assert(s.subrange(0, i + 1).last() == s[i as int]);
                assert(s.subrange(0, i + 1).drop_last() =~= s.subrange(0, i as int));
            }
            if hit {
                self.rows.remove(i);
                let ghost mid = self.rows@;
                proof {
                    lemma_remove_by_id_at(s, id, i as int);
                    assert(mid =~= remove_by_id(s, id));
                    s.remove_ensures(i as int);
                    assert(forall|j: int| 0 <= j < i ==> #[trigger] mid[j] == s[j]);
                    assert(forall|j: int| i <= j < mid.len() ==> #[trigger] mid[j] == s[j + 1]);
                    assert(forall|j: int| 0 <= j < mid.len() ==> (#[trigger] mid[j].id) != id);
                }
                let row = Transacao { id, valor, data, categoria_id, conta_id, descricao, tipo };
                let ghost r2 = row;
                let pos = insert_sorted(&mut self.rows, row);
                proof {
                    lemma_insert_wf(mid, r2, self.rows@, pos as int, self.next_id);
                }
                return true;
            }
        }
        false
    }

    /// Removes the row with the given id; reports whether such a row
    /// existed.  Deleting an absent id changes nothing and raises no
    /// error: the call reports `false`.
    #[verifier::loop_isolation(false)]
    pub fn delete(&mut self, id: i64) -> (r: bool)
        requires
            old(self).wf(),
        ensures
            final(self).wf(),
            final(self).next_id == old(self).next_id,
            final(self).rows@ == remove_by_id(old(self).rows@, id),
            r == (lookup(old(self).rows@, id) is Some),
    {
        let ghost s = self.rows@;
        let mut i: usize = self.rows.len();
        proof {
            assert(s.subrange(0, s.len() as int) =~= s);
        }
        while i > 0
            invariant
                i <= self.rows@.len(),
                self.rows@ == s,
                self.next_id == old(self).next_id,
                lookup(s, id) == lookup(s.subrange(0, i as int), id),
                forall|j: int| i <= j < s.len() ==> s[j].id != id,
            decreases i,
        {
            i = i - 1;
            let hit = self.rows[i].id == id;
            proof {
                assert(s.subrange(0, i + 1).last() == s[i as int]);
                assert(s.subrange(0, i + 1).drop_last() =~= s.subrange(0, i as int));
            }
            if hit {
                self.rows.remove(i);
                proof {
                    lemma_remove_by_id_at(s, id, i as int);
                    assert(self.rows@ =~= remove_by_id(s, id));
                    s.remove_ensures(i as int);
                    assert(forall|j: int| 0 <= j < i ==> #[trigger] self.rows@[j] == s[j]);
                    assert(forall|j: int|
                        i <= j < self.rows@.len() ==> #[trigger] self.rows@[j] == s[j + 1]);
                    assert(self.wf());
                }
                return true;
            }
        }
        proof {
            lemma_remove_by_id_absent(s, id);
        }
        false
    }
}

/// Removing the id that stands at `idx` — and nowhere later — takes out
/// exactly that row.
proof fn lemma_remove_by_id_at(s: Seq<Transacao>, id: i64, idx: int)
    requires
        0 <= idx < s.len(),
        s[idx].id == id,
        forall|j: int| idx < j < s.len() ==> s[j].id != id,
    ensures
        remove_by_id(s, id) == s.subrange(0, idx) + s.subrange(idx + 1, s.len() as int),
    decreases s.len(),
{
    if idx == s.len() - 1 {
        assert(remove_by_id(s, id) == s.drop_last());
        assert(s.drop_last() =~= s.subrange(0, idx) + s.subrange(idx + 1, s.len() as int));
    } else {
        assert(s.last().id != id);
        lemma_remove_by_id_at(s.drop_last(), id, idx);
        assert(s.drop_last().subrange(0, idx) =~= s.subrange(0, idx));
        assert(s.drop_last().subrange(idx + 1, s.len() - 1) =~= s.subrange(idx + 1, s.len() - 1));
        assert((s.subrange(0, idx) + s.subrange(idx + 1, s.len() - 1)).push(s.last()) =~= s.subrange(
            0,
            idx,
        ) + s.subrange(idx + 1, s.len() as int));
    }
}

/// Deleting an id that no row holds leaves the rows as they were.
proof fn lemma_remove_by_id_absent(s: Seq<Transacao>, id: i64)
    requires
        forall|j: int| 0 <= j < s.len() ==> s[j].id != id,
    ensures
        remove_by_id(s, id) == s,
    decreases s.len(),
{
    if s.len() > 0 {
        lemma_remove_by_id_absent(s.drop_last(), id);
        assert(s.drop_last().push(s.last()) =~= s);
    }
}

/// With the id in no row, `lookup` finds nothing.
proof fn lemma_lookup_absent(s: Seq<Transacao>, id: i64)
    requires
        forall|j: int| 0 <= j < s.len() ==> s[j].id != id,
    ensures
        lookup(s, id) is None,
    decreases s.len(),
{
    if s.len() > 0 {
        lemma_lookup_absent(s.drop_last(), id);
    }
}

/// A row placed by `sorted_insert` under an id no other row holds is
/// found again under that id, with exactly the fields it was given.
pub proof fn lemma_inserted_is_found(s: Seq<Transacao>, r: Transacao)
    requires
        forall|j: int| 0 <= j < s.len() ==> (#[trigger] s[j].id) != r.id,
    ensures
        lookup(sorted_insert(s, r), r.id) == Some(r),
    decreases s.len(),
{
    let res = sorted_insert(s, r);
    if s.len() == 0 {
        assert(res == seq![r]);
        assert(res.last() == r);
    } else if row_lt(s.last(), r) {
        assert(res.last() == r);
    } else {
        assert(res == sorted_insert(s.drop_last(), r).push(s.last()));
        assert(res.last() == s.last());
        assert(res.drop_last() =~= sorted_insert(s.drop_last(), r));
        lemma_inserted_is_found(s.drop_last(), r);
    }
}

/// Placing a row changes what no other id selects.
pub proof fn lemma_insert_preserves_others(s: Seq<Transacao>, r: Transacao, id: i64)
    requires
        id != r.id,
    ensures
        lookup(sorted_insert(s, r), id) == lookup(s, id),
    decreases s.len(),
{
    let res = sorted_insert(s, r);
    if s.len() == 0 {
        assert(res == seq![r]);
        assert(res.drop_last() =~= Seq::<Transacao>::empty());
    } else if row_lt(s.last(), r) {
        assert(res == s.push(r));
        assert(res.drop_last() =~= s);
    } else {
        assert(res == sorted_insert(s.drop_last(), r).push(s.last()));
        if s.last().id != id {
            assert(res.drop_last() =~= sorted_insert(s.drop_last(), r));
            lemma_insert_preserves_others(s.drop_last(), r, id);
        }
    }
}

/// After an update, the updated id selects the new fields if the row
/// existed; an update of an absent id leaves the rows as they were — that
/// much is stated by `update` itself.
pub proof fn lemma_update_then_get(
    s: Seq<Transacao>,
    id: i64,
    valor: u64,
    data: String,
    categoria_id: Option<i64>,
    conta_id: Option<i64>,
    descricao: Option<String>,
    tipo: String,
)
    requires
        forall|i: int, j: int| 0 <= i < j < s.len() ==> s[i].id != s[j].id,
    ensures
        lookup(
            sorted_insert(
                remove_by_id(s, id),
                tr_row(id, valor, data, categoria_id, conta_id, descricao, tipo),
            ),
            id,
        ) == Some(tr_row(id, valor, data, categoria_id, conta_id, descricao, tipo)),
{
    lemma_remove_clears_id(s, id);
    lemma_inserted_is_found(
        remove_by_id(s, id),
        tr_row(id, valor, data, categoria_id, conta_id, descricao, tipo),
    );
}

/// After a delete, the deleted id selects nothing; deleting an absent id
/// leaves the rows as they were.
pub proof fn lemma_delete_then_get(s: Seq<Transacao>, id: i64)
    requires
        forall|i: int, j: int| 0 <= i < j < s.len() ==> s[i].id != s[j].id,
    ensures
        lookup(remove_by_id(s, id), id) == None::<Transacao>,
        lookup(s, id) is None ==> remove_by_id(s, id) == s,
{
    lemma_remove_clears_id(s, id);
    lemma_lookup_absent(remove_by_id(s, id), id);
    if lookup(s, id) is None {
        lemma_lookup_gives_all(s, id);
        lemma_remove_by_id_absent(s, id);
    }
}

/// No row left after a delete holds the deleted id.
proof fn lemma_remove_clears_id(s: Seq<Transacao>, id: i64)
    requires
        forall|i: int, j: int| 0 <= i < j < s.len() ==> s[i].id != s[j].id,
    ensures
        forall|j: int| 0 <= j < remove_by_id(s, id).len() ==> (#[trigger] remove_by_id(s, id)[j].id)
            != id,
    decreases s.len(),
{
    let res = remove_by_id(s, id);
    if s.len() > 0 {
        lemma_remove_clears_id(s.drop_last(), id);
        if s.last().id != id {
            assert(res == remove_by_id(s.drop_last(), id).push(s.last()));
            assert forall|j: int| 0 <= j < res.len() implies (#[trigger] res[j].id) != id by {
                if j < res.len() - 1 {
                    assert(res[j] == remove_by_id(s.drop_last(), id)[j]);
                }
            }
        }
    }
}

/// When `lookup` finds nothing, no row holds the id.
proof fn lemma_lookup_gives_all(s: Seq<Transacao>, id: i64)
    requires
        lookup(s, id) is None,
    ensures
        forall|j: int| 0 <= j < s.len() ==> (#[trigger] s[j].id) != id,
    decreases s.len(),
{
    if s.len() > 0 {
        lemma_lookup_gives_all(s.drop_last(), id);
        assert(forall|j: int| 0 <= j < s.len() - 1 ==> #[trigger] s[j] == s.drop_last()[j]);
    }
}

/// A list call with no filters returns every row; on a table in its
/// stored order that listing runs newest date first.
pub proof fn lemma_list_no_filters(s: Seq<Transacao>)
    requires
        forall|i: int, j: int| 0 <= i < j < s.len() ==> row_lt(s[i], s[j]),
    ensures
        listing(s, None, None, None, None, None) == s.reverse(),
        forall|i: int, j: int|
            0 <= i < j < listing(s, None, None, None, None, None).len() ==> row_lt(
                listing(s, None, None, None, None, None)[j],
                listing(s, None, None, None, None, None)[i],
            ),
{
    lemma_filter_all(s, |t: Transacao| transacao_matches(t, None, None, None, None, None));
}

/// A list call returns only rows that pass every supplied filter; if no
/// row passes them, the listing is empty.
pub proof fn lemma_list_filtered(
    s: Seq<Transacao>,
    tipo: Option<String>,
    categoria_id: Option<i64>,
    conta_id: Option<i64>,
    data_inicio: Option<String>,
    data_fim: Option<String>,
)
    ensures
        forall|t: int|
            0 <= t < listing(s, tipo, categoria_id, conta_id, data_inicio, data_fim).len()
                ==> transacao_matches(
                #[trigger] listing(s, tipo, categoria_id, conta_id, data_inicio, data_fim)[t],
                tipo,
                categoria_id,
                conta_id,
                data_inicio,
                data_fim,
            ),
        (forall|j: int|
            0 <= j < s.len() ==> !transacao_matches(
                #[trigger] s[j],
                tipo,
                categoria_id,
                conta_id,
                data_inicio,
                data_fim,
            )) ==> listing(s, tipo, categoria_id, conta_id, data_inicio, data_fim) == Seq::<
            Transacao,
        >::empty(),
{
    let pred = |t: Transacao|
        transacao_matches(t, tipo, categoria_id, conta_id, data_inicio, data_fim);
    let f = s.filter(pred);
    let l = listing(s, tipo, categoria_id, conta_id, data_inicio, data_fim);
    assert forall|t: int| 0 <= t < l.len() implies transacao_matches(
        #[trigger] l[t],
        tipo,
        categoria_id,
        conta_id,
        data_inicio,
        data_fim,
    ) by {
        assert(l[t] == f[f.len() - 1 - t]);
        Seq::lemma_filter_pred(s, pred, f.len() - 1 - t);
    }
    if forall|j: int|
        0 <= j < s.len() ==> !transacao_matches(
            #[trigger] s[j],
            tipo,
            categoria_id,
            conta_id,
            data_inicio,
            data_fim,
        ) {
        lemma_filter_none(s, pred);
        assert(l =~= Seq::<Transacao>::empty());
    }
}

} // verus!
