use financas::categoria::{Categoria, CategoriaTable};
use financas::conta::ContaTable;
use financas::transacao::{Transacao, TransacaoTable};

fn s(x: &str) -> String {
    x.to_string()
}

#[test]
fn categoria_create_then_get_round_trips() {
    let mut t = CategoriaTable::new();
    let id = t.create(s("Groceries"), None);
    assert_eq!(id, 1);
    let got = t.get(id).unwrap();
    assert_eq!(got.id, 1);
    assert_eq!(got.nome, "Groceries");
    assert_eq!(got.icone, None);
    let id2 = t.create(s("Rent"), Some(s("house")));
    assert_eq!(id2, 2);
    let got2 = t.get(id2).unwrap();
    assert_eq!(got2.nome, "Rent");
    assert_eq!(got2.icone, Some(s("house")));
    assert_eq!(t.get(1).unwrap().nome, "Groceries");
    assert!(t.get(3).is_none());
}

#[test]
fn conta_create_then_get_round_trips() {
    let mut t = ContaTable::new();
    let saldo = 1234.56f64.to_bits();
    let id = t.create(s("Checking"), Some(s("Big Bank")), saldo, Some(s("corrente")));
    assert_eq!(id, 1);
    let got = t.get(id).unwrap();
    assert_eq!(got.nome, "Checking");
    assert_eq!(got.banco, Some(s("Big Bank")));
    assert_eq!(f64::from_bits(got.saldo), 1234.56);
    assert_eq!(got.tipo, Some(s("corrente")));
    assert!(t.get(2).is_none());
}

#[test]
fn transacao_create_then_get_round_trips() {
    let mut t = TransacaoTable::new();
    let valor = 42.50f64.to_bits();
    let id = t.create(valor, s("2024-01-15"), Some(1), None, Some(s("Market")), s("expense"));
    assert_eq!(id, 1);
    let got = t.get(id).unwrap();
    assert_eq!(
        got,
        Transacao {
            id: 1,
            valor,
            data: s("2024-01-15"),
            categoria_id: Some(1),
            conta_id: None,
            descricao: Some(s("Market")),
            tipo: s("expense"),
        }
    );
}

#[test]
fn list_with_no_filters_returns_all_rows_id_descending() {
    let mut t = CategoriaTable::new();
    t.create(s("a"), None);
    t.create(s("b"), None);
    t.create(s("c"), None);
    let all = t.list(None, None, None);
    let ids: Vec<i64> = all.iter().map(|c| c.id).collect();
    assert_eq!(ids, vec![3, 2, 1]);
}

#[test]
fn list_transacoes_no_filters_is_date_descending() {
    let mut t = TransacaoTable::new();
    t.create(0, s("2024-02-01"), None, None, None, s("expense"));
    t.create(0, s("2024-01-01"), None, None, None, s("expense"));
    t.create(0, s("2024-03-01"), None, None, None, s("income"));
    let all = t.list(None, None, None, None, None, None, None);
    let datas: Vec<String> = all.iter().map(|x| x.data.clone()).collect();
    assert_eq!(datas, vec![s("2024-03-01"), s("2024-02-01"), s("2024-01-01")]);
}

#[test]
fn list_transacoes_equal_dates_newest_id_first() {
    let mut t = TransacaoTable::new();
    t.create(0, s("2024-01-01"), None, None, None, s("a"));
    t.create(0, s("2024-01-01"), None, None, None, s("b"));
    let all = t.list(None, None, None, None, None, None, None);
    let ids: Vec<i64> = all.iter().map(|x| x.id).collect();
    assert_eq!(ids, vec![2, 1]);
}

#[test]
fn substring_filter_keeps_only_matching_rows() {
    let mut t = CategoriaTable::new();
    t.create(s("Groceries"), None);
    t.create(s("Rent"), None);
    t.create(s("Micro-groceries"), None);
    let hits = t.list(Some(s("roc")), None, None);
    let nomes: Vec<String> = hits.iter().map(|c| c.nome.clone()).collect();
    assert_eq!(nomes, vec![s("Micro-groceries"), s("Groceries")]);
    // SQLite's default LIKE folds ASCII case.
    let hits = t.list(Some(s("GROC")), None, None);
    assert_eq!(hits.len(), 2);
    // A substring found nowhere gives an empty listing, not an error.
    let hits = t.list(Some(s("zzz")), None, None);
    assert!(hits.is_empty());
}

#[test]
fn limit_caps_and_offset_slices_without_gaps() {
    let mut t = CategoriaTable::new();
    for i in 0..7 {
        t.create(format!("c{}", i), None);
    }
    let limited = t.list(None, Some(3), None);
    assert_eq!(limited.len(), 3);
    let ids: Vec<i64> = limited.iter().map(|c| c.id).collect();
    assert_eq!(ids, vec![7, 6, 5]);

    // Paging through the full listing in steps of 3 partitions it.
    let mut paged: Vec<i64> = Vec::new();
    for page in 0..3 {
        for c in t.list(None, Some(3), Some(3 * page)) {
            paged.push(c.id);
        }
    }
    assert_eq!(paged, vec![7, 6, 5, 4, 3, 2, 1]);

    // A limit of zero yields an empty page.
    assert!(t.list(None, Some(0), None).is_empty());
    // An offset beyond the end yields an empty page.
    assert!(t.list(None, Some(3), Some(100)).is_empty());
    // An offset without a limit still skips.
    let tail = t.list(None, None, Some(5));
    let ids: Vec<i64> = tail.iter().map(|c| c.id).collect();
    assert_eq!(ids, vec![2, 1]);
}

#[test]
fn update_replaces_fields_and_reports_missing_ids() {
    let mut t = CategoriaTable::new();
    let id = t.create(s("Old"), Some(s("o")));
    assert!(t.update(id, s("New"), None));
    let got = t.get(id).unwrap();
    assert_eq!(got, Categoria { id, nome: s("New"), icone: None });
    // An absent id creates no row and raises no error.
    assert!(!t.update(99, s("Ghostly"), None));
    assert_eq!(t.list(None, None, None).len(), 1);
    assert!(t.get(99).is_none());
}

#[test]
fn conta_update_and_delete() {
    let mut t = ContaTable::new();
    let id = t.create(s("Checking"), None, 0, None);
    assert!(t.update(id, s("Savings"), Some(s("B")), 1.5f64.to_bits(), Some(s("poupanca"))));
    let got = t.get(id).unwrap();
    assert_eq!(got.nome, "Savings");
    assert_eq!(f64::from_bits(got.saldo), 1.5);
    assert!(t.delete(id));
    assert!(t.get(id).is_none());
    assert!(!t.delete(id));
}

#[test]
fn transacao_update_moves_row_to_its_new_date() {
    let mut t = TransacaoTable::new();
    t.create(0, s("2024-01-10"), None, None, None, s("expense"));
    t.create(0, s("2024-01-20"), None, None, None, s("expense"));
    // Move the older row past the newer one.
    assert!(t.update(1, 0, s("2024-02-01"), None, None, None, s("expense")));
    let all = t.list(None, None, None, None, None, None, None);
    let ids: Vec<i64> = all.iter().map(|x| x.id).collect();
    assert_eq!(ids, vec![1, 2]);
    let got = t.get(1).unwrap();
    assert_eq!(got.data, s("2024-02-01"));
    // An absent id changes nothing and raises no error.
    assert!(!t.update(9, 0, s("2024-01-01"), None, None, None, s("expense")));
    assert_eq!(t.list(None, None, None, None, None, None, None).len(), 2);
}

#[test]
fn delete_then_get_fails_with_not_found() {
    let mut t = CategoriaTable::new();
    let id = t.create(s("Doomed"), None);
    assert!(t.delete(id));
    assert!(t.get(id).is_none());
    // Deleting an absent id raises no error.
    assert!(!t.delete(id));
    // Ids are not reused after a delete.
    let id2 = t.create(s("Next"), None);
    assert_eq!(id2, 2);
}

#[test]
fn finance_scenario_across_tables() {
    let mut cats = CategoriaTable::new();
    let cat_id = cats.create(s("Groceries"), None);
    assert_eq!(cat_id, 1);

    let mut trs = TransacaoTable::new();
    let valor = 42.50f64.to_bits();
    let tr_id = trs.create(valor, s("2024-01-15"), Some(1), None, Some(s("Market")), s("expense"));
    assert_eq!(tr_id, 1);

    let by_cat = trs.list(None, Some(1), None, None, None, None, None);
    assert_eq!(by_cat.len(), 1);
    assert_eq!(by_cat[0].id, 1);
    assert_eq!(f64::from_bits(by_cat[0].valor), 42.50);
    assert_eq!(by_cat[0].descricao, Some(s("Market")));

    let by_range = trs.list(
        None,
        None,
        None,
        Some(s("2024-01-01")),
        Some(s("2024-01-31")),
        None,
        None,
    );
    assert_eq!(by_range.len(), 1);
    assert_eq!(by_range[0].id, 1);

    let other_cat = trs.list(None, Some(2), None, None, None, None, None);
    assert!(other_cat.is_empty());
}

#[test]
fn transacao_filters_respect_missing_references() {
    let mut t = TransacaoTable::new();
    t.create(0, s("2024-01-01"), None, None, None, s("expense"));
    t.create(0, s("2024-01-02"), Some(7), None, None, s("income"));
    // A row whose reference column is empty never matches a reference filter.
    let hits = t.list(None, Some(7), None, None, None, None, None);
    assert_eq!(hits.len(), 1);
    assert_eq!(hits[0].id, 2);
    // The type filter is exact, not substring.
    let hits = t.list(Some(s("exp")), None, None, None, None, None, None);
    assert!(hits.is_empty());
    let hits = t.list(Some(s("expense")), None, None, None, None, None, None);
    assert_eq!(hits.len(), 1);
    // Date bounds are inclusive.
    let hits = t.list(None, None, None, Some(s("2024-01-02")), Some(s("2024-01-02")), None, None);
    assert_eq!(hits.len(), 1);
    assert_eq!(hits[0].id, 2);
}
