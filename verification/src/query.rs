//! SQL statements for a file-backed SQLite store with three tables —
//! `categoria`, `conta`, `transacao` — whose columns mirror the record
//! types of this crate.
//!
//! Each builder returns the statement text together with the positional
//! parameter list, and its contract pins both: which predicate text each
//! present filter appends, and which bound value lands at which position.
//! Placeholder order and value order therefore match by construction —
//! the one invariant dynamic query building must keep, stated once more
//! by the `placeholders` lemmas: every list statement carries exactly as
//! many `?` marks as bound values.

use vstd::prelude::*;
use vstd::string::{StrSliceExecFns, StringExecFns};

verus! {

/// A value bound to one `?` of a statement.  `Real` carries the 64 bits
/// of the caller's floating-point value, which this crate never
/// interprets; the layer running the statement turns them back into the
/// number they encode.
#[derive(Debug, PartialEq)]
pub enum SqlValue {
    Integer(i64),
    Text(String),
    Real(u64),
    Null,
}

/// What a bound value is, mathematically.
pub enum SqlValueV {
    Integer(i64),
    Text(Seq<char>),
    Real(u64),
    Null,
}

impl View for SqlValue {
    type V = SqlValueV;

    open spec fn view(&self) -> SqlValueV {
        match self {
            SqlValue::Integer(i) => SqlValueV::Integer(*i),
            SqlValue::Text(s) => SqlValueV::Text(s@),
            SqlValue::Real(b) => SqlValueV::Real(*b),
            SqlValue::Null => SqlValueV::Null,
        }
    }
}

/// The bound values of a parameter list.
pub open spec fn views(p: Seq<SqlValue>) -> Seq<SqlValueV> {
    p.map_values(|v: SqlValue| v@)
}

/// How many `?` marks a statement holds.
pub open spec fn placeholders(s: Seq<char>) -> int
    decreases s.len(),
{
    if s.len() == 0 {
        0
    } else {
        placeholders(s.drop_last()) + (if s.last() == '?' {
            1int
        } else {
            0int
        })
    }
}

/// `?` marks are counted piece by piece.
pub proof fn lemma_placeholders_add(a: Seq<char>, b: Seq<char>)
    ensures
        placeholders(a + b) == placeholders(a) + placeholders(b),
    decreases b.len(),
{
    if b.len() == 0 {
        assert(a + b =~= a);
    } else {
        assert((a + b).drop_last() =~= a + b.drop_last());
        assert((a + b).last() == b.last());
        lemma_placeholders_add(a, b.drop_last());
    }
}

/// The pattern that the `%needle%` containment filter binds.
pub open spec fn like_pattern(s: Seq<char>) -> Seq<char> {
    "%"@ + s + "%"@
}

/// Wraps a filter text for containment matching.
fn wrap_like(s: &String) -> (r: String)
    ensures
        r@ == like_pattern(s@),
{
    let mut r = String::from_str("%");
    r.append(s.as_str());
    r.append("%");
    proof {
        assert(r@ =~= like_pattern(s@));
    }
    r
}

/// An optional text column: its text, or SQL `NULL`.
pub open spec fn opt_text(o: Option<String>) -> SqlValueV {
    match o {
        Some(s) => SqlValueV::Text(s@),
        None => SqlValueV::Null,
    }
}

/// Binds an optional text field.
fn opt_text_value(o: &Option<String>) -> (r: SqlValue)
    ensures
        r@ == opt_text(*o),
{
    match o {
        Some(s) => SqlValue::Text(s.clone()),
        None => SqlValue::Null,
    }
}

/// An optional reference column: its id, or SQL `NULL`.
pub open spec fn opt_id(o: Option<i64>) -> SqlValueV {
    match o {
        Some(i) => SqlValueV::Integer(i),
        None => SqlValueV::Null,
    }
}

/// Binds an optional reference field.
fn opt_id_value(o: Option<i64>) -> (r: SqlValue)
    ensures
        r@ == opt_id(o),
{
    match o {
        Some(i) => SqlValue::Integer(i),
        None => SqlValue::Null,
    }
}

/// The tail every list statement ends with: the limit's `?` when a limit
/// is set — or no cap at all, spelled `-1`, when only an offset is — and
/// the offset's `?` last.
pub open spec fn limit_offset_sql(limit: bool, offset: bool) -> Seq<char> {
    (if limit {
        " LIMIT ?"@
    } else if offset {
        " LIMIT -1"@
    } else {
        Seq::<char>::empty()
    }) + (if offset {
        " OFFSET ?"@
    } else {
        Seq::<char>::empty()
    })
}

/// The values bound by the tail: the limit, then the offset.
pub open spec fn limit_offset_params(limit: Option<u32>, offset: Option<u32>) -> Seq<SqlValueV> {
    (match limit {
        Some(n) => seq![SqlValueV::Integer(n as i64)],
        None => Seq::<SqlValueV>::empty(),
    }) + (match offset {
        Some(m) => seq![SqlValueV::Integer(m as i64)],
        None => Seq::<SqlValueV>::empty(),
    })
}

/// The tail binds one value per `?` it appends.
#[verifier::rlimit(100)]
pub proof fn lemma_limit_offset_placeholders(limit: Option<u32>, offset: Option<u32>)
    ensures
        placeholders(limit_offset_sql(limit is Some, offset is Some)) == limit_offset_params(
            limit,
            offset,
        ).len(),
{
    reveal_with_fuel(placeholders, 12);
    reveal_strlit(" LIMIT ?");
    reveal_strlit(" LIMIT -1");
    reveal_strlit(" OFFSET ?");
    assert(placeholders(" LIMIT ?"@) == 1);
    assert(placeholders(" LIMIT -1"@) == 0);
    assert(placeholders(" OFFSET ?"@) == 1);
    assert(placeholders(Seq::<char>::empty()) == 0);
    lemma_placeholders_add(
        if limit is Some {
            " LIMIT ?"@
        } else if offset is Some {
            " LIMIT -1"@
        } else {
            Seq::<char>::empty()
        },
        if offset is Some {
            " OFFSET ?"@
        } else {
            Seq::<char>::empty()
        },
    );
}

/// The `?` count of the category column list.
#[verifier::rlimit(100)]
proof fn lemma_count_select_categoria()
    ensures
        placeholders("SELECT id, nome, icone FROM categoria"@) == 0,
{
    reveal_with_fuel(placeholders, 45);
    reveal_strlit("SELECT id, nome, icone FROM categoria");
}

/// The `?` count of the account column list.
#[verifier::rlimit(100)]
proof fn lemma_count_select_conta()
    ensures
        placeholders("SELECT id, nome, banco, saldo, tipo FROM conta"@) == 0,
{
    reveal_with_fuel(placeholders, 50);
    reveal_strlit("SELECT id, nome, banco, saldo, tipo FROM conta");
}

/// The `?` count of the first half of the transaction column list.
#[verifier::rlimit(100)]
proof fn lemma_count_select_transacao_a()
    ensures
        placeholders("SELECT id, valor, data, categoria_id,"@) == 0,
{
    reveal_with_fuel(placeholders, 42);
    reveal_strlit("SELECT id, valor, data, categoria_id,");
}

/// The `?` count of the second half of the transaction column list.
#[verifier::rlimit(100)]
proof fn lemma_count_select_transacao_b()
    ensures
        placeholders(" conta_id, descricao, tipo FROM transacao"@) == 0,
{
    reveal_with_fuel(placeholders, 46);
    reveal_strlit(" conta_id, descricao, tipo FROM transacao");
}

/// The `?` counts of the fixed clauses of the list statements.
#[verifier::rlimit(100)]
proof fn lemma_count_fixed_clauses()
    ensures
        placeholders(" WHERE 1=1"@) == 0,
        placeholders(" ORDER BY id DESC"@) == 0,
        placeholders(" ORDER BY data DESC"@) == 0,
{
    reveal_with_fuel(placeholders, 24);
    reveal_strlit(" WHERE 1=1");
    reveal_strlit(" ORDER BY id DESC");
    reveal_strlit(" ORDER BY data DESC");
}

/// The `?` counts of the text filters.
#[verifier::rlimit(100)]
proof fn lemma_count_text_filters()
    ensures
        placeholders(" AND nome LIKE ?"@) == 1,
        placeholders(" AND banco LIKE ?"@) == 1,
        placeholders(" AND tipo = ?"@) == 1,
{
    reveal_with_fuel(placeholders, 22);
    reveal_strlit(" AND nome LIKE ?");
    reveal_strlit(" AND banco LIKE ?");
    reveal_strlit(" AND tipo = ?");
}

/// The `?` counts of the reference filters.
#[verifier::rlimit(100)]
proof fn lemma_count_reference_filters()
    ensures
        placeholders(" AND categoria_id = ?"@) == 1,
        placeholders(" AND conta_id = ?"@) == 1,
{
    reveal_with_fuel(placeholders, 26);
    reveal_strlit(" AND categoria_id = ?");
    reveal_strlit(" AND conta_id = ?");
}

/// The `?` counts of the date-range filters.
#[verifier::rlimit(100)]
proof fn lemma_count_date_filters()
    ensures
        placeholders(" AND data >= ?"@) == 1,
        placeholders(" AND data <= ?"@) == 1,
{
    reveal_with_fuel(placeholders, 19);
    reveal_strlit(" AND data >= ?");
    reveal_strlit(" AND data <= ?");
}

/// The statement that creates a category.
pub fn create_categoria_query(nome: &String, icone: &Option<String>) -> (r: (String, Vec<SqlValue>))
    ensures
        r.0@ == "INSERT INTO categoria (nome, icone) VALUES (?, ?)"@,
        views(r.1@) == seq![SqlValueV::Text(nome@), opt_text(*icone)],
{
    let sql = String::from_str("INSERT INTO categoria (nome, icone) VALUES (?, ?)");
    let mut params: Vec<SqlValue> = Vec::new();
    params.push(SqlValue::Text(nome.clone()));
    params.push(opt_text_value(icone));
    proof {
        assert(views(params@) =~= seq![SqlValueV::Text(nome@), opt_text(*icone)]);
    }
    (sql, params)
}

/// The statement that fetches a category by id.
pub fn get_categoria_query(id: i64) -> (r: (String, Vec<SqlValue>))
    ensures
        r.0@ == "SELECT id, nome, icone FROM categoria WHERE id = ?"@,
        views(r.1@) == seq![SqlValueV::Integer(id)],
{
    let sql = String::from_str("SELECT id, nome, icone FROM categoria WHERE id = ?");
    let mut params: Vec<SqlValue> = Vec::new();
    params.push(SqlValue::Integer(id));
    proof {
        assert(views(params@) =~= seq![SqlValueV::Integer(id)]);
    }
    (sql, params)
}

/// The statement that replaces all fields of a category; the key comes
/// last, after the new field values.
pub fn update_categoria_query(id: i64, nome: &String, icone: &Option<String>) -> (r: (
    String,
    Vec<SqlValue>,
))
    ensures
        r.0@ == "UPDATE categoria SET nome = ?, icone = ? WHERE id = ?"@,
        views(r.1@) == seq![SqlValueV::Text(nome@), opt_text(*icone), SqlValueV::Integer(id)],
{
    let sql = String::from_str("UPDATE categoria SET nome = ?, icone = ? WHERE id = ?");
    let mut params: Vec<SqlValue> = Vec::new();
    params.push(SqlValue::Text(nome.clone()));
    params.push(opt_text_value(icone));
    params.push(SqlValue::Integer(id));
    proof {
        assert(views(params@) =~= seq![
            SqlValueV::Text(nome@),
            opt_text(*icone),
            SqlValueV::Integer(id),
        ]);
    }
    (sql, params)
}

/// The statement that deletes a category by id.
pub fn delete_categoria_query(id: i64) -> (r: (String, Vec<SqlValue>))
    ensures
        r.0@ == "DELETE FROM categoria WHERE id = ?"@,
        views(r.1@) == seq![SqlValueV::Integer(id)],
{
    let sql = String::from_str("DELETE FROM categoria WHERE id = ?");
    let mut params: Vec<SqlValue> = Vec::new();
    params.push(SqlValue::Integer(id));
    proof {
        assert(views(params@) =~= seq![SqlValueV::Integer(id)]);
    }
    (sql, params)
}

/// The category list statement: the unconditional query, one predicate
/// per present filter, the fixed order, then limit and offset.
pub open spec fn list_categorias_sql(nome: bool, limit: bool, offset: bool) -> Seq<char> {
    "SELECT id, nome, icone FROM categoria"@ + " WHERE 1=1"@ + (if nome {
        " AND nome LIKE ?"@
    } else {
        Seq::<char>::empty()
    }) + " ORDER BY id DESC"@ + limit_offset_sql(limit, offset)
}

/// The values the category list statement binds, in the order its
/// predicates were appended.
pub open spec fn list_categorias_params(
    nome: Option<String>,
    limit: Option<u32>,
    offset: Option<u32>,
) -> Seq<SqlValueV> {
    (match nome {
        Some(p) => seq![SqlValueV::Text(like_pattern(p@))],
        None => Seq::<SqlValueV>::empty(),
    }) + limit_offset_params(limit, offset)
}

/// The category list statement holds one `?` per bound value.
#[verifier::rlimit(100)]
pub proof fn lemma_list_categorias_placeholders(
    nome: Option<String>,
    limit: Option<u32>,
    offset: Option<u32>,
)
    ensures
        placeholders(list_categorias_sql(nome is Some, limit is Some, offset is Some))
            == list_categorias_params(nome, limit, offset).len(),
{
    let base = "SELECT id, nome, icone FROM categoria"@;
    let cond = " WHERE 1=1"@;
    let like = if nome is Some {
        " AND nome LIKE ?"@
    } else {
        Seq::<char>::empty()
    };
    let order = " ORDER BY id DESC"@;
    let tail = limit_offset_sql(limit is Some, offset is Some);
    lemma_count_select_categoria();
    lemma_count_fixed_clauses();
    lemma_count_text_filters();
    lemma_placeholders_add(base, cond);
    lemma_placeholders_add(base + cond, like);
    lemma_placeholders_add(base + cond + like, order);
    lemma_placeholders_add(base + cond + like + order, tail);
    lemma_limit_offset_placeholders(limit, offset);
}

/// Builds the category list statement for the present filters.
pub fn list_categorias_query(nome: &Option<String>, limit: Option<u32>, offset: Option<u32>) -> (r:
    (String, Vec<SqlValue>))
    ensures
        r.0@ == list_categorias_sql(nome is Some, limit is Some, offset is Some),
        views(r.1@) == list_categorias_params(*nome, limit, offset),
        placeholders(r.0@) == r.1@.len(),
{
    let mut sql = String::from_str("SELECT id, nome, icone FROM categoria");
    sql.append(" WHERE 1=1");
    let mut params: Vec<SqlValue> = Vec::new();
    if let Some(p) = nome {
        sql.append(" AND nome LIKE ?");
        params.push(SqlValue::Text(wrap_like(p)));
    }
    sql.append(" ORDER BY id DESC");
    match limit {
        Some(n) => {
            sql.append(" LIMIT ?");
            params.push(SqlValue::Integer(n as i64));
        },
        None => {
            if offset.is_some() {
                sql.append(" LIMIT -1");
            }
        },
    }
    if let Some(m) = offset {
        sql.append(" OFFSET ?");
        params.push(SqlValue::Integer(m as i64));
    }
    proof {
        assert(sql@ =~= list_categorias_sql(nome is Some, limit is Some, offset is Some));
        assert(views(params@) =~= list_categorias_params(*nome, limit, offset));
        lemma_list_categorias_placeholders(*nome, limit, offset);
    }
    (sql, params)
}

/// The statement that creates an account.
pub fn create_conta_query(
    nome: &String,
    banco: &Option<String>,
    saldo: u64,
    tipo: &Option<String>,
) -> (r: (String, Vec<SqlValue>))
    ensures
        r.0@ == "INSERT INTO conta (nome, banco, saldo, tipo) VALUES (?, ?, ?, ?)"@,
        views(r.1@) == seq![
            SqlValueV::Text(nome@),
            opt_text(*banco),
            SqlValueV::Real(saldo),
            opt_text(*tipo),
        ],
{
    let sql = String::from_str("INSERT INTO conta (nome, banco, saldo, tipo) VALUES (?, ?, ?, ?)");
    let mut params: Vec<SqlValue> = Vec::new();
    params.push(SqlValue::Text(nome.clone()));
    params.push(opt_text_value(banco));
    params.push(SqlValue::Real(saldo));
    params.push(opt_text_value(tipo));
    proof {
        assert(views(params@) =~= seq![
            SqlValueV::Text(nome@),
            opt_text(*banco),
            SqlValueV::Real(saldo),
            opt_text(*tipo),
        ]);
    }
    (sql, params)
}

/// The statement that fetches an account by id.
pub fn get_conta_query(id: i64) -> (r: (String, Vec<SqlValue>))
    ensures
        r.0@ == "SELECT id, nome, banco, saldo, tipo FROM conta WHERE id = ?"@,
        views(r.1@) == seq![SqlValueV::Integer(id)],
{
    let sql = String::from_str("SELECT id, nome, banco, saldo, tipo FROM conta WHERE id = ?");
    let mut params: Vec<SqlValue> = Vec::new();
    params.push(SqlValue::Integer(id));
    proof {
        assert(views(params@) =~= seq![SqlValueV::Integer(id)]);
    }
    (sql, params)
}

/// The statement that replaces all fields of an account; the key comes
/// last, after the new field values.
pub fn update_conta_query(
    id: i64,
    nome: &String,
    banco: &Option<String>,
    saldo: u64,
    tipo: &Option<String>,
) -> (r: (String, Vec<SqlValue>))
    ensures
        r.0@ == "UPDATE conta SET nome = ?, banco = ?, saldo = ?, tipo = ? WHERE id = ?"@,
        views(r.1@) == seq![
            SqlValueV::Text(nome@),
            opt_text(*banco),
            SqlValueV::Real(saldo),
            opt_text(*tipo),
            SqlValueV::Integer(id),
        ],
{
    let sql = String::from_str(
        "UPDATE conta SET nome = ?, banco = ?, saldo = ?, tipo = ? WHERE id = ?",
    );
    let mut params: Vec<SqlValue> = Vec::new();
    params.push(SqlValue::Text(nome.clone()));
    params.push(opt_text_value(banco));
    params.push(SqlValue::Real(saldo));
    params.push(opt_text_value(tipo));
    params.push(SqlValue::Integer(id));
    proof {
        assert(views(params@) =~= seq![
            SqlValueV::Text(nome@),
            opt_text(*banco),
            SqlValueV::Real(saldo),
            opt_text(*tipo),
            SqlValueV::Integer(id),
        ]);
    }
    (sql, params)
}

/// The statement that deletes an account by id.
pub fn delete_conta_query(id: i64) -> (r: (String, Vec<SqlValue>))
    ensures
        r.0@ == "DELETE FROM conta WHERE id = ?"@,
        views(r.1@) == seq![SqlValueV::Integer(id)],
{
    let sql = String::from_str("DELETE FROM conta WHERE id = ?");
    let mut params: Vec<SqlValue> = Vec::new();
    params.push(SqlValue::Integer(id));
    proof {
        assert(views(params@) =~= seq![SqlValueV::Integer(id)]);
    }
    (sql, params)
}

/// The account list statement: the unconditional query, one predicate
/// per present filter, the fixed order, then limit and offset.
pub open spec fn list_contas_sql(
    nome: bool,
    banco: bool,
    tipo: bool,
    limit: bool,
    offset: bool,
) -> Seq<char> {
    "SELECT id, nome, banco, saldo, tipo FROM conta"@ + " WHERE 1=1"@ + (if nome {
        " AND nome LIKE ?"@
    } else {
        Seq::<char>::empty()
    }) + (if banco {
        " AND banco LIKE ?"@
    } else {
        Seq::<char>::empty()
    }) + (if tipo {
        " AND tipo = ?"@
    } else {
        Seq::<char>::empty()
    }) + " ORDER BY id DESC"@ + limit_offset_sql(limit, offset)
}

/// The values the account list statement binds, in the order its
/// predicates were appended.
pub open spec fn list_contas_params(
    nome: Option<String>,
    banco: Option<String>,
    tipo: Option<String>,
    limit: Option<u32>,
    offset: Option<u32>,
) -> Seq<SqlValueV> {
    (match nome {
        Some(p) => seq![SqlValueV::Text(like_pattern(p@))],
        None => Seq::<SqlValueV>::empty(),
    }) + (match banco {
        Some(p) => seq![SqlValueV::Text(like_pattern(p@))],
        None => Seq::<SqlValueV>::empty(),
    }) + (match tipo {
        Some(p) => seq![SqlValueV::Text(p@)],
        None => Seq::<SqlValueV>::empty(),
    }) + limit_offset_params(limit, offset)
}

/// The account list statement holds one `?` per bound value.
#[verifier::rlimit(100)]
pub proof fn lemma_list_contas_placeholders(
    nome: Option<String>,
    banco: Option<String>,
    tipo: Option<String>,
    limit: Option<u32>,
    offset: Option<u32>,
)
    ensures
        placeholders(
            list_contas_sql(nome is Some, banco is Some, tipo is Some, limit is Some, offset
                is Some),
        ) == list_contas_params(nome, banco, tipo, limit, offset).len(),
{
    let base = "SELECT id, nome, banco, saldo, tipo FROM conta"@;
    let cond = " WHERE 1=1"@;
    let f1 = if nome is Some {
        " AND nome LIKE ?"@
    } else {
        Seq::<char>::empty()
    };
    let f2 = if banco is Some {
        " AND banco LIKE ?"@
    } else {
        Seq::<char>::empty()
    };
    let f3 = if tipo is Some {
        " AND tipo = ?"@
    } else {
        Seq::<char>::empty()
    };
    let order = " ORDER BY id DESC"@;
    let tail = limit_offset_sql(limit is Some, offset is Some);
    lemma_count_select_conta();
    lemma_count_fixed_clauses();
    lemma_count_text_filters();
    lemma_placeholders_add(base, cond);
    lemma_placeholders_add(base + cond, f1);
    lemma_placeholders_add(base + cond + f1, f2);
    lemma_placeholders_add(base + cond + f1 + f2, f3);
    lemma_placeholders_add(base + cond + f1 + f2 + f3, order);
    lemma_placeholders_add(base + cond + f1 + f2 + f3 + order, tail);
    lemma_limit_offset_placeholders(limit, offset);
}

/// Builds the account list statement for the present filters.
pub fn list_contas_query(
    nome: &Option<String>,
    banco: &Option<String>,
    tipo: &Option<String>,
    limit: Option<u32>,
    offset: Option<u32>,
) -> (r: (String, Vec<SqlValue>))
    ensures
        r.0@ == list_contas_sql(nome is Some, banco is Some, tipo is Some, limit is Some, offset
            is Some),
        views(r.1@) == list_contas_params(*nome, *banco, *tipo, limit, offset),
        placeholders(r.0@) == r.1@.len(),
{
    let mut sql = String::from_str("SELECT id, nome, banco, saldo, tipo FROM conta");
    sql.append(" WHERE 1=1");
    let mut params: Vec<SqlValue> = Vec::new();
    if let Some(p) = nome {
        sql.append(" AND nome LIKE ?");
        params.push(SqlValue::Text(wrap_like(p)));
    }
    if let Some(p) = banco {
        sql.append(" AND banco LIKE ?");
        params.push(SqlValue::Text(wrap_like(p)));
    }
    if let Some(p) = tipo {
        sql.append(" AND tipo = ?");
        params.push(SqlValue::Text(p.clone()));
    }
    sql.append(" ORDER BY id DESC");
    match limit {
        Some(n) => {
            sql.append(" LIMIT ?");
            params.push(SqlValue::Integer(n as i64));
        },
        None => {
            if offset.is_some() {
                sql.append(" LIMIT -1");
            }
        },
    }
    if let Some(m) = offset {
        sql.append(" OFFSET ?");
        params.push(SqlValue::Integer(m as i64));
    }
    proof {
        assert(sql@ =~= list_contas_sql(
            nome is Some,
            banco is Some,
            tipo is Some,
            limit is Some,
            offset is Some,
        ));
        assert(views(params@) =~= list_contas_params(*nome, *banco, *tipo, limit, offset));
        lemma_list_contas_placeholders(*nome, *banco, *tipo, limit, offset);
    }
    (sql, params)
}

/// The statement that creates a transaction.
pub fn create_transacao_query(
    valor: u64,
    data: &String,
    categoria_id: Option<i64>,
    conta_id: Option<i64>,
    descricao: &Option<String>,
    tipo: &String,
) -> (r: (String, Vec<SqlValue>))
    ensures
        r.0@
            == "INSERT INTO transacao (valor, data, categoria_id, conta_id, descricao, tipo) VALUES (?, ?, ?, ?, ?, ?)"@,
        views(r.1@) == seq![
            SqlValueV::Real(valor),
            SqlValueV::Text(data@),
            opt_id(categoria_id),
            opt_id(conta_id),
            opt_text(*descricao),
            SqlValueV::Text(tipo@),
        ],
{
    let sql = String::from_str(
        "INSERT INTO transacao (valor, data, categoria_id, conta_id, descricao, tipo) VALUES (?, ?, ?, ?, ?, ?)",
    );
    let mut params: Vec<SqlValue> = Vec::new();
    params.push(SqlValue::Real(valor));
    params.push(SqlValue::Text(data.clone()));
    params.push(opt_id_value(categoria_id));
    params.push(opt_id_value(conta_id));
    params.push(opt_text_value(descricao));
    params.push(SqlValue::Text(tipo.clone()));
    proof {
        assert(views(params@) =~= seq![
            SqlValueV::Real(valor),
            SqlValueV::Text(data@),
            opt_id(categoria_id),
            opt_id(conta_id),
            opt_text(*descricao),
            SqlValueV::Text(tipo@),
        ]);
    }
    (sql, params)
}

/// The statement that fetches a transaction by id.
pub fn get_transacao_query(id: i64) -> (r: (String, Vec<SqlValue>))
    ensures
        r.0@
            == "SELECT id, valor, data, categoria_id, conta_id, descricao, tipo FROM transacao WHERE id = ?"@,
        views(r.1@) == seq![SqlValueV::Integer(id)],
{
    let sql = String::from_str(
        "SELECT id, valor, data, categoria_id, conta_id, descricao, tipo FROM transacao WHERE id = ?",
    );
    let mut params: Vec<SqlValue> = Vec::new();
    params.push(SqlValue::Integer(id));
    proof {
        assert(views(params@) =~= seq![SqlValueV::Integer(id)]);
    }
    (sql, params)
}

/// The statement that replaces all fields of a transaction; the key
/// comes last, after the new field values.
pub fn update_transacao_query(
    id: i64,
    valor: u64,
    data: &String,
    categoria_id: Option<i64>,
    conta_id: Option<i64>,
    descricao: &Option<String>,
    tipo: &String,
) -> (r: (String, Vec<SqlValue>))
    ensures
        r.0@
            == "UPDATE transacao SET valor = ?, data = ?, categoria_id = ?, conta_id = ?, descricao = ?, tipo = ? WHERE id = ?"@,
        views(r.1@) == seq![
            SqlValueV::Real(valor),
            SqlValueV::Text(data@),
            opt_id(categoria_id),
            opt_id(conta_id),
            opt_text(*descricao),
            SqlValueV::Text(tipo@),
            SqlValueV::Integer(id),
        ],
{
    let sql = String::from_str(
        "UPDATE transacao SET valor = ?, data = ?, categoria_id = ?, conta_id = ?, descricao = ?, tipo = ? WHERE id = ?",
    );
    let mut params: Vec<SqlValue> = Vec::new();
    params.push(SqlValue::Real(valor));
    params.push(SqlValue::Text(data.clone()));
    params.push(opt_id_value(categoria_id));
    params.push(opt_id_value(conta_id));
    params.push(opt_text_value(descricao));
    params.push(SqlValue::Text(tipo.clone()));
    params.push(SqlValue::Integer(id));
    proof {
        assert(views(params@) =~= seq![
            SqlValueV::Real(valor),
            SqlValueV::Text(data@),
            opt_id(categoria_id),
            opt_id(conta_id),
            opt_text(*descricao),
            SqlValueV::Text(tipo@),
            SqlValueV::Integer(id),
        ]);
    }
    (sql, params)
}

/// The statement that deletes a transaction by id.
pub fn delete_transacao_query(id: i64) -> (r: (String, Vec<SqlValue>))
    ensures
        r.0@ == "DELETE FROM transacao WHERE id = ?"@,
        views(r.1@) == seq![SqlValueV::Integer(id)],
{
    let sql = String::from_str("DELETE FROM transacao WHERE id = ?");
    let mut params: Vec<SqlValue> = Vec::new();
    params.push(SqlValue::Integer(id));
    proof {
        assert(views(params@) =~= seq![SqlValueV::Integer(id)]);
    }
    (sql, params)
}

/// The predicate texts of the transaction filters, in the order they
/// are appended.
pub open spec fn transacao_filters_sql(
    tipo: bool,
    categoria_id: bool,
    conta_id: bool,
    data_inicio: bool,
    data_fim: bool,
) -> Seq<char> {
    (if tipo {
        " AND tipo = ?"@
    } else {
        Seq::<char>::empty()
    }) + (if categoria_id {
        " AND categoria_id = ?"@
    } else {
        Seq::<char>::empty()
    }) + (if conta_id {
        " AND conta_id = ?"@
    } else {
        Seq::<char>::empty()
    }) + (if data_inicio {
        " AND data >= ?"@
    } else {
        Seq::<char>::empty()
    }) + (if data_fim {
        " AND data <= ?"@
    } else {
        Seq::<char>::empty()
    })
}

/// The values the transaction filters bind, in the same order.
pub open spec fn transacao_filters_params(
    tipo: Option<String>,
    categoria_id: Option<i64>,
    conta_id: Option<i64>,
    data_inicio: Option<String>,
    data_fim: Option<String>,
) -> Seq<SqlValueV> {
    (match tipo {
        Some(p) => seq![SqlValueV::Text(p@)],
        None => Seq::<SqlValueV>::empty(),
    }) + (match categoria_id {
        Some(c) => seq![SqlValueV::Integer(c)],
        None => Seq::<SqlValueV>::empty(),
    }) + (match conta_id {
        Some(c) => seq![SqlValueV::Integer(c)],
        None => Seq::<SqlValueV>::empty(),
    }) + (match data_inicio {
        Some(d) => seq![SqlValueV::Text(d@)],
        None => Seq::<SqlValueV>::empty(),
    }) + (match data_fim {
        Some(d) => seq![SqlValueV::Text(d@)],
        None => Seq::<SqlValueV>::empty(),
    })
}

/// Appends the transaction filter predicates and binds their values.
#[verifier::rlimit(100)]
fn push_transacao_filters(
    sql: &mut String,
    params: &mut Vec<SqlValue>,
    tipo: &Option<String>,
    categoria_id: Option<i64>,
    conta_id: Option<i64>,
    data_inicio: &Option<String>,
    data_fim: &Option<String>,
)
    ensures
        final(sql)@ == old(sql)@ + transacao_filters_sql(
            tipo is Some,
            categoria_id is Some,
            conta_id is Some,
            data_inicio is Some,
            data_fim is Some,
        ),
        views(final(params)@) == views(old(params)@) + transacao_filters_params(
            *tipo,
            categoria_id,
            conta_id,
            *data_inicio,
            *data_fim,
        ),
{
    if let Some(p) = tipo {
        sql.append(" AND tipo = ?");
        params.push(SqlValue::Text(p.clone()));
    }
    if let Some(c) = categoria_id {
        sql.append(" AND categoria_id = ?");
        params.push(SqlValue::Integer(c));
    }
    if let Some(c) = conta_id {
        sql.append(" AND conta_id = ?");
        params.push(SqlValue::Integer(c));
    }
    if let Some(d) = data_inicio {
        sql.append(" AND data >= ?");
        params.push(SqlValue::Text(d.clone()));
    }
    if let Some(d) = data_fim {
        sql.append(" AND data <= ?");
        params.push(SqlValue::Text(d.clone()));
    }
    proof {
        assert(sql@ =~= old(sql)@ + transacao_filters_sql(
            tipo is Some,
            categoria_id is Some,
            conta_id is Some,
            data_inicio is Some,
            data_fim is Some,
        ));
        assert(views(params@) =~= views(old(params)@) + transacao_filters_params(
            *tipo,
            categoria_id,
            conta_id,
            *data_inicio,
            *data_fim,
        ));
    }
}

/// Appends the limit and offset tail and binds its values.
#[verifier::rlimit(100)]
fn push_limit_offset(
    sql: &mut String,
    params: &mut Vec<SqlValue>,
    limit: Option<u32>,
    offset: Option<u32>,
)
    ensures
        final(sql)@ == old(sql)@ + limit_offset_sql(limit is Some, offset is Some),
        views(final(params)@) == views(old(params)@) + limit_offset_params(limit, offset),
{
    match limit {
        Some(n) => {
            sql.append(" LIMIT ?");
            params.push(SqlValue::Integer(n as i64));
        },
        None => {
            if offset.is_some() {
                sql.append(" LIMIT -1");
            }
        },
    }
    if let Some(m) = offset {
        sql.append(" OFFSET ?");
        params.push(SqlValue::Integer(m as i64));
    }
    proof {
        assert(sql@ =~= old(sql)@ + limit_offset_sql(limit is Some, offset is Some));
        assert(views(params@) =~= views(old(params)@) + limit_offset_params(limit, offset));
    }
}

/// The transaction list statement: the unconditional query, one
/// predicate per present filter, the fixed order, then limit and offset.
pub open spec fn list_transacoes_sql(
    tipo: bool,
    categoria_id: bool,
    conta_id: bool,
    data_inicio: bool,
    data_fim: bool,
    limit: bool,
    offset: bool,
) -> Seq<char> {
    "SELECT id, valor, data, categoria_id,"@ + " conta_id, descricao, tipo FROM transacao"@
        + " WHERE 1=1"@ + transacao_filters_sql(tipo, categoria_id, conta_id, data_inicio, data_fim)
        + " ORDER BY data DESC"@ + limit_offset_sql(limit, offset)
}

/// The values the transaction list statement binds, in the order its
/// predicates were appended.
pub open spec fn list_transacoes_params(
    tipo: Option<String>,
    categoria_id: Option<i64>,
    conta_id: Option<i64>,
    data_inicio: Option<String>,
    data_fim: Option<String>,
    limit: Option<u32>,
    offset: Option<u32>,
) -> Seq<SqlValueV> {
    transacao_filters_params(tipo, categoria_id, conta_id, data_inicio, data_fim)
        + limit_offset_params(limit, offset)
}

/// The transaction filters bind one value per `?` they append.
#[verifier::rlimit(100)]
pub proof fn lemma_transacao_filters_placeholders(
    tipo: Option<String>,
    categoria_id: Option<i64>,
    conta_id: Option<i64>,
    data_inicio: Option<String>,
    data_fim: Option<String>,
)
    ensures
        placeholders(
            transacao_filters_sql(
                tipo is Some,
                categoria_id is Some,
                conta_id is Some,
                data_inicio is Some,
                data_fim is Some,
            ),
        ) == transacao_filters_params(tipo, categoria_id, conta_id, data_inicio, data_fim).len(),
{
    let f1 = if tipo is Some {
        " AND tipo = ?"@
    } else {
        Seq::<char>::empty()
    };
    let f2 = if categoria_id is Some {
        " AND categoria_id = ?"@
    } else {
        Seq::<char>::empty()
    };
    let f3 = if conta_id is Some {
        " AND conta_id = ?"@
    } else {
        Seq::<char>::empty()
    };
    let f4 = if data_inicio is Some {
        " AND data >= ?"@
    } else {
        Seq::<char>::empty()
    };
    let f5 = if data_fim is Some {
        " AND data <= ?"@
    } else {
        Seq::<char>::empty()
    };
    lemma_count_text_filters();
    lemma_count_reference_filters();
    lemma_count_date_filters();
    lemma_placeholders_add(f1, f2);
    lemma_placeholders_add(f1 + f2, f3);
    lemma_placeholders_add(f1 + f2 + f3, f4);
    lemma_placeholders_add(f1 + f2 + f3 + f4, f5);
}

/// The transaction list statement holds one `?` per bound value.
#[verifier::rlimit(100)]
pub proof fn lemma_list_transacoes_placeholders(
    tipo: Option<String>,
    categoria_id: Option<i64>,
    conta_id: Option<i64>,
    data_inicio: Option<String>,
    data_fim: Option<String>,
    limit: Option<u32>,
    offset: Option<u32>,
)
    ensures
        placeholders(
            list_transacoes_sql(
                tipo is Some,
                categoria_id is Some,
                conta_id is Some,
                data_inicio is Some,
                data_fim is Some,
                limit is Some,
                offset is Some,
            ),
        ) == list_transacoes_params(
            tipo,
            categoria_id,
            conta_id,
            data_inicio,
            data_fim,
            limit,
            offset,
        ).len(),
{
    let base_a = "SELECT id, valor, data, categoria_id,"@;
    let base_b = " conta_id, descricao, tipo FROM transacao"@;
    let cond = " WHERE 1=1"@;
    let filters = transacao_filters_sql(
        tipo is Some,
        categoria_id is Some,
        conta_id is Some,
        data_inicio is Some,
        data_fim is Some,
    );
    let order = " ORDER BY data DESC"@;
    let tail = limit_offset_sql(limit is Some, offset is Some);
    lemma_count_select_transacao_a();
    lemma_count_select_transacao_b();
    lemma_count_fixed_clauses();
    lemma_transacao_filters_placeholders(tipo, categoria_id, conta_id, data_inicio, data_fim);
    lemma_placeholders_add(base_a, base_b);
    lemma_placeholders_add(base_a + base_b, cond);
    lemma_placeholders_add(base_a + base_b + cond, filters);
    lemma_placeholders_add(base_a + base_b + cond + filters, order);
    lemma_placeholders_add(base_a + base_b + cond + filters + order, tail);
    lemma_limit_offset_placeholders(limit, offset);
}

/// Builds the transaction list statement for the present filters.
pub fn list_transacoes_query(
    tipo: &Option<String>,
    categoria_id: Option<i64>,
    conta_id: Option<i64>,
    data_inicio: &Option<String>,
    data_fim: &Option<String>,
    limit: Option<u32>,
    offset: Option<u32>,
) -> (r: (String, Vec<SqlValue>))
    ensures
        r.0@ == list_transacoes_sql(
            tipo is Some,
            categoria_id is Some,
            conta_id is Some,
            data_inicio is Some,
            data_fim is Some,
            limit is Some,
            offset is Some,
        ),
        views(r.1@) == list_transacoes_params(
            *tipo,
            categoria_id,
            conta_id,
            *data_inicio,
            *data_fim,
            limit,
            offset,
        ),
        placeholders(r.0@) == r.1@.len(),
{
    let mut sql = String::from_str("SELECT id, valor, data, categoria_id,");
    sql.append(" conta_id, descricao, tipo FROM transacao");
    sql.append(" WHERE 1=1");
    let mut params: Vec<SqlValue> = Vec::new();
    proof {
        assert(views(params@) =~= Seq::<SqlValueV>::empty());
    }
    push_transacao_filters(&mut sql, &mut params, tipo, categoria_id, conta_id, data_inicio, data_fim);
    sql.append(" ORDER BY data DESC");
    push_limit_offset(&mut sql, &mut params, limit, offset);
    proof {
        assert(sql@ =~= list_transacoes_sql(
            tipo is Some,
            categoria_id is Some,
            conta_id is Some,
            data_inicio is Some,
            data_fim is Some,
            limit is Some,
            offset is Some,
        ));
        assert(views(params@) =~= list_transacoes_params(
            *tipo,
            categoria_id,
            conta_id,
            *data_inicio,
            *data_fim,
            limit,
            offset,
        ));
        lemma_list_transacoes_placeholders(
            *tipo,
            categoria_id,
            conta_id,
            *data_inicio,
            *data_fim,
            limit,
            offset,
        );
    }
    (sql, params)
}

} // verus!
