use financas::query::{
    create_categoria_query, create_conta_query, create_transacao_query, delete_categoria_query,
    delete_conta_query, delete_transacao_query, get_categoria_query, get_conta_query,
    get_transacao_query, list_categorias_query, list_contas_query, list_transacoes_query,
    update_categoria_query, update_conta_query, update_transacao_query, SqlValue,
};

fn s(x: &str) -> String {
    x.to_string()
}

fn count_marks(sql: &str) -> usize {
    sql.chars().filter(|c| *c == '?').count()
}

#[test]
fn categoria_statements_text_and_values() {
    let (sql, params) = create_categoria_query(&s("Groceries"), &None);
    assert_eq!(sql, "INSERT INTO categoria (nome, icone) VALUES (?, ?)");
    assert_eq!(params, vec![SqlValue::Text(s("Groceries")), SqlValue::Null]);

    let (sql, params) = get_categoria_query(7);
    assert_eq!(sql, "SELECT id, nome, icone FROM categoria WHERE id = ?");
    assert_eq!(params, vec![SqlValue::Integer(7)]);

    let (sql, params) = update_categoria_query(7, &s("Food"), &Some(s("cart")));
    assert_eq!(sql, "UPDATE categoria SET nome = ?, icone = ? WHERE id = ?");
    assert_eq!(
        params,
        vec![SqlValue::Text(s("Food")), SqlValue::Text(s("cart")), SqlValue::Integer(7)]
    );

    let (sql, params) = delete_categoria_query(7);
    assert_eq!(sql, "DELETE FROM categoria WHERE id = ?");
    assert_eq!(params, vec![SqlValue::Integer(7)]);
}

#[test]
fn list_categorias_statement_grows_with_filters() {
    let (sql, params) = list_categorias_query(&None, None, None);
    assert_eq!(sql, "SELECT id, nome, icone FROM categoria WHERE 1=1 ORDER BY id DESC");
    assert!(params.is_empty());

    let (sql, params) = list_categorias_query(&Some(s("roc")), Some(10), Some(20));
    assert_eq!(
        sql,
        "SELECT id, nome, icone FROM categoria WHERE 1=1 AND nome LIKE ? ORDER BY id DESC LIMIT ? OFFSET ?"
    );
    assert_eq!(
        params,
        vec![SqlValue::Text(s("%roc%")), SqlValue::Integer(10), SqlValue::Integer(20)]
    );

    // An offset alone still yields a valid statement: no cap, spelled -1.
    let (sql, params) = list_categorias_query(&None, None, Some(4));
    assert_eq!(
        sql,
        "SELECT id, nome, icone FROM categoria WHERE 1=1 ORDER BY id DESC LIMIT -1 OFFSET ?"
    );
    assert_eq!(params, vec![SqlValue::Integer(4)]);
}

#[test]
fn conta_statements_text_and_values() {
    let saldo = 10.5f64.to_bits();
    let (sql, params) = create_conta_query(&s("Checking"), &None, saldo, &Some(s("corrente")));
    assert_eq!(sql, "INSERT INTO conta (nome, banco, saldo, tipo) VALUES (?, ?, ?, ?)");
    assert_eq!(
        params,
        vec![
            SqlValue::Text(s("Checking")),
            SqlValue::Null,
            SqlValue::Real(saldo),
            SqlValue::Text(s("corrente")),
        ]
    );

    let (sql, _) = get_conta_query(3);
    assert_eq!(sql, "SELECT id, nome, banco, saldo, tipo FROM conta WHERE id = ?");

    let (sql, params) = update_conta_query(3, &s("X"), &None, saldo, &None);
    assert_eq!(sql, "UPDATE conta SET nome = ?, banco = ?, saldo = ?, tipo = ? WHERE id = ?");
    assert_eq!(params.len(), 5);
    assert_eq!(params[4], SqlValue::Integer(3));

    let (sql, _) = delete_conta_query(3);
    assert_eq!(sql, "DELETE FROM conta WHERE id = ?");

    let (sql, params) = list_contas_query(&Some(s("che")), &Some(s("bank")), &Some(s("c")), None, None);
    assert_eq!(
        sql,
        "SELECT id, nome, banco, saldo, tipo FROM conta WHERE 1=1 AND nome LIKE ? AND banco LIKE ? AND tipo = ? ORDER BY id DESC"
    );
    assert_eq!(
        params,
        vec![
            SqlValue::Text(s("%che%")),
            SqlValue::Text(s("%bank%")),
            SqlValue::Text(s("c")),
        ]
    );
}

#[test]
fn transacao_statements_text_and_values() {
    let valor = 42.5f64.to_bits();
    let (sql, params) =
        create_transacao_query(valor, &s("2024-01-15"), Some(1), None, &Some(s("Market")), &s("expense"));
    assert_eq!(
        sql,
        "INSERT INTO transacao (valor, data, categoria_id, conta_id, descricao, tipo) VALUES (?, ?, ?, ?, ?, ?)"
    );
    assert_eq!(
        params,
        vec![
            SqlValue::Real(valor),
            SqlValue::Text(s("2024-01-15")),
            SqlValue::Integer(1),
            SqlValue::Null,
            SqlValue::Text(s("Market")),
            SqlValue::Text(s("expense")),
        ]
    );

    let (sql, _) = get_transacao_query(2);
    assert_eq!(
        sql,
        "SELECT id, valor, data, categoria_id, conta_id, descricao, tipo FROM transacao WHERE id = ?"
    );

    let (sql, params) =
        update_transacao_query(2, valor, &s("2024-02-01"), None, Some(5), &None, &s("income"));
    assert_eq!(
        sql,
        "UPDATE transacao SET valor = ?, data = ?, categoria_id = ?, conta_id = ?, descricao = ?, tipo = ? WHERE id = ?"
    );
    assert_eq!(params.len(), 7);
    assert_eq!(params[6], SqlValue::Integer(2));

    let (sql, _) = delete_transacao_query(2);
    assert_eq!(sql, "DELETE FROM transacao WHERE id = ?");
}

#[test]
fn list_transacoes_statement_grows_with_filters() {
    let (sql, params) = list_transacoes_query(&None, None, None, &None, &None, None, None);
    assert_eq!(
        sql,
        "SELECT id, valor, data, categoria_id, conta_id, descricao, tipo FROM transacao WHERE 1=1 ORDER BY data DESC"
    );
    assert!(params.is_empty());

    let (sql, params) = list_transacoes_query(
        &Some(s("expense")),
        Some(1),
        Some(2),
        &Some(s("2024-01-01")),
        &Some(s("2024-01-31")),
        Some(50),
        Some(100),
    );
    assert_eq!(
        sql,
        "SELECT id, valor, data, categoria_id, conta_id, descricao, tipo FROM transacao WHERE 1=1 \
         AND tipo = ? AND categoria_id = ? AND conta_id = ? AND data >= ? AND data <= ? \
         ORDER BY data DESC LIMIT ? OFFSET ?"
    );
    assert_eq!(
        params,
        vec![
            SqlValue::Text(s("expense")),
            SqlValue::Integer(1),
            SqlValue::Integer(2),
            SqlValue::Text(s("2024-01-01")),
            SqlValue::Text(s("2024-01-31")),
            SqlValue::Integer(50),
            SqlValue::Integer(100),
        ]
    );
}

#[test]
fn every_statement_binds_one_value_per_placeholder() {
    let cases: Vec<(String, Vec<SqlValue>)> = vec![
        create_categoria_query(&s("a"), &Some(s("b"))),
        get_categoria_query(1),
        update_categoria_query(1, &s("a"), &None),
        delete_categoria_query(1),
        list_categorias_query(&Some(s("a")), Some(1), None),
        create_conta_query(&s("a"), &Some(s("b")), 0, &None),
        get_conta_query(1),
        update_conta_query(1, &s("a"), &None, 0, &Some(s("t"))),
        delete_conta_query(1),
        list_contas_query(&None, &Some(s("b")), &None, None, Some(3)),
        create_transacao_query(0, &s("d"), None, Some(2), &None, &s("t")),
        get_transacao_query(1),
        update_transacao_query(1, 0, &s("d"), Some(1), None, &Some(s("x")), &s("t")),
        delete_transacao_query(1),
        list_transacoes_query(&Some(s("t")), None, Some(2), &Some(s("d")), &None, Some(1), Some(2)),
    ];
    for (sql, params) in cases {
        assert_eq!(count_marks(&sql), params.len(), "statement: {}", sql);
    }
}
