use stash::plan::{
    copy_format, copy_format_named, handle_copy, handle_explain, handle_insert, handle_select,
    handle_set_variable, handle_show_variable, handle_tail, CatalogEntry, CatalogItemType,
    CopyDirection, CopyFormat, CopyOptions, CopyRelation, CopyStatement, CopyTarget, ExplainOptions,
    ExplainStage, ExplainStatement, ExplainedQuery, Explainee, InsertStatement, PeekWhen, Plan,
    PlanError, PlannedQuery, SelectStatement, SetVariableStatement, SetVariableValue, TailOptions,
    TailStatement,
};

type TestPlan = Plan<&'static str, &'static str, u8>;

fn planner(message: &str) -> PlanError {
    PlanError::Planner(message.to_string())
}

fn select(as_of: Option<Result<u64, PlanError>>) -> SelectStatement<&'static str, u8> {
    SelectStatement {
        query: Ok(PlannedQuery {
            source: "expr",
            finishing: 9,
        }),
        as_of,
    }
}

fn entry(item_type: CatalogItemType) -> CatalogEntry {
    CatalogEntry {
        name: "db.public.t".to_string(),
        id: 42,
        item_type,
        arity: Ok(3),
    }
}

fn tail(item_type: CatalogItemType) -> TailStatement {
    TailStatement {
        entry: Ok(entry(item_type)),
        options: Ok(TailOptions {
            snapshot: None,
            progress: None,
        }),
        as_of: None,
    }
}

#[test]
fn set_variable() {
    let plan: TestPlan = handle_set_variable(SetVariableStatement {
        local: false,
        variable: "search_path".to_string(),
        value: SetVariableValue::StringLiteral("public".to_string()),
    })
    .unwrap();
    assert!(
        matches!(plan, Plan::SetVariable { ref name, ref value } if name == "search_path" && value == "public")
    );
    let plan: TestPlan = handle_set_variable(SetVariableStatement {
        local: false,
        variable: "x".to_string(),
        value: SetVariableValue::Literal("17".to_string()),
    })
    .unwrap();
    assert!(matches!(plan, Plan::SetVariable { ref value, .. } if value == "17"));
    let plan: TestPlan = handle_set_variable(SetVariableStatement {
        local: false,
        variable: "x".to_string(),
        value: SetVariableValue::Ident("on".to_string()),
    })
    .unwrap();
    assert!(matches!(plan, Plan::SetVariable { ref value, .. } if value == "on"));

    let r: Result<TestPlan, PlanError> = handle_set_variable(SetVariableStatement {
        local: true,
        variable: "x".to_string(),
        value: SetVariableValue::Ident("on".to_string()),
    });
    let e = r.unwrap_err();
    assert!(matches!(e, PlanError::Unsupported(ref f) if f == "SET LOCAL"));
    assert_eq!(e.to_string(), "SET LOCAL not yet supported");
}

#[test]
fn show_variable() {
    for all in ["ALL", "all", "aLl"] {
        let plan: TestPlan = handle_show_variable(all);
        assert!(matches!(plan, Plan::ShowAllVariables));
    }
    for name in ["ALLL", "AL", "", "a11", "ÀLL", "search_path"] {
        let plan: TestPlan = handle_show_variable(name);
        assert!(matches!(plan, Plan::ShowVariable(ref n) if n == name));
    }
}

#[test]
fn select_reads_now_or_at_a_time() {
    let plan: TestPlan = handle_select(select(None), None).unwrap();
    assert!(matches!(
        plan,
        Plan::Peek {
            source: "expr",
            when: PeekWhen::Immediately,
            finishing: 9,
            copy_to: None
        }
    ));
    let plan: TestPlan = handle_select(select(Some(Ok(77))), Some(CopyFormat::Csv)).unwrap();
    assert!(matches!(
        plan,
        Plan::Peek {
            when: PeekWhen::AtTimestamp(77),
            copy_to: Some(CopyFormat::Csv),
            ..
        }
    ));
}

#[test]
fn select_reports_the_first_error() {
    let r: Result<TestPlan, PlanError> = handle_select(select(Some(Err(planner("bad time")))), None);
    assert_eq!(r.unwrap_err().to_string(), "bad time");
    let r: Result<TestPlan, PlanError> = handle_select(
        SelectStatement {
            query: Err(planner("bad query")),
            as_of: Some(Err(planner("bad time"))),
        },
        None,
    );
    assert_eq!(r.unwrap_err().to_string(), "bad query");
}

#[test]
fn tail_of_tables_sources_and_views() {
    for kind in [
        CatalogItemType::Table,
        CatalogItemType::Source,
        CatalogItemType::View,
    ] {
        let plan: TestPlan = handle_tail(tail(kind), None).unwrap();
        assert!(matches!(
            plan,
            Plan::Tail {
                id: 42,
                ts: None,
                with_snapshot: true,
                copy_to: None,
                emit_progress: false,
                object_columns: 3
            }
        ));
    }
    let mut statement = tail(CatalogItemType::View);
    statement.options = Ok(TailOptions {
        snapshot: Some(false),
        progress: Some(true),
    });
    statement.as_of = Some(Ok(5));
    let plan: TestPlan = handle_tail(statement, Some(CopyFormat::Binary)).unwrap();
    assert!(matches!(
        plan,
        Plan::Tail {
            ts: Some(5),
            with_snapshot: false,
            copy_to: Some(CopyFormat::Binary),
            emit_progress: true,
            ..
        }
    ));
}

#[test]
fn tail_refuses_other_items() {
    for (kind, word) in [
        (CatalogItemType::Index, "index"),
        (CatalogItemType::Sink, "sink"),
        (CatalogItemType::Type, "type"),
    ] {
        let r: Result<TestPlan, PlanError> = handle_tail(tail(kind), None);
        assert_eq!(
            r.unwrap_err().to_string(),
            format!("'db.public.t' cannot be tailed because it is a {}", word)
        );
    }
}

#[test]
fn tail_reports_errors_in_order() {
    let all_wrong = || TailStatement {
        entry: Err(planner("name")),
        options: Err(planner("options")),
        as_of: Some(Err(planner("time"))),
    };
    let r: Result<TestPlan, PlanError> = handle_tail(all_wrong(), None);
    assert_eq!(r.unwrap_err().to_string(), "name");

    let mut statement = all_wrong();
    let mut sink = entry(CatalogItemType::Sink);
    sink.arity = Err(planner("desc"));
    statement.entry = Ok(sink);
    let r: Result<TestPlan, PlanError> = handle_tail(statement, None);
    assert_eq!(r.unwrap_err().to_string(), "time");

    let mut statement = all_wrong();
    statement.entry = Ok(entry(CatalogItemType::Sink));
    statement.as_of = None;
    let r: Result<TestPlan, PlanError> = handle_tail(statement, None);
    assert_eq!(r.unwrap_err().to_string(), "options");

    let mut statement = tail(CatalogItemType::Table);
    let mut table = entry(CatalogItemType::Table);
    table.arity = Err(planner("desc"));
    statement.entry = Ok(table);
    let r: Result<TestPlan, PlanError> = handle_tail(statement, None);
    assert_eq!(r.unwrap_err().to_string(), "desc");
}

#[test]
fn copy_formats() {
    assert_eq!(copy_format_named("text"), Some(CopyFormat::Text));
    assert_eq!(copy_format_named("csv"), Some(CopyFormat::Csv));
    assert_eq!(copy_format_named("binary"), Some(CopyFormat::Binary));
    assert_eq!(copy_format_named("CSV"), None);
    assert_eq!(copy_format_named(""), None);
    assert!(matches!(copy_format(None), Ok(CopyFormat::Text)));
    assert!(matches!(copy_format(Some("CSV".to_string())), Ok(CopyFormat::Csv)));
    assert!(matches!(copy_format(Some("Binary".to_string())), Ok(CopyFormat::Binary)));
    assert!(matches!(copy_format(Some("tExT".to_string())), Ok(CopyFormat::Text)));
    let e = copy_format(Some("Parquet".to_string())).unwrap_err();
    assert_eq!(e.to_string(), "unknown FORMAT: Parquet");
}

fn copy(
    relation: CopyRelation<&'static str, u8>,
    direction: CopyDirection,
    target: CopyTarget,
    format: Option<&str>,
) -> CopyStatement<&'static str, u8> {
    CopyStatement {
        relation,
        direction,
        target,
        options: Ok(CopyOptions {
            format: format.map(|f| f.to_string()),
        }),
    }
}

#[test]
fn copy_of_a_select_or_a_tail_to_stdout() {
    let plan: TestPlan = handle_copy(copy(
        CopyRelation::Select(select(None)),
        CopyDirection::To,
        CopyTarget::Stdout,
        None,
    ))
    .unwrap();
    assert!(matches!(
        plan,
        Plan::Peek {
            copy_to: Some(CopyFormat::Text),
            when: PeekWhen::Immediately,
            ..
        }
    ));
    let plan: TestPlan = handle_copy(copy(
        CopyRelation::Tail(tail(CatalogItemType::Source)),
        CopyDirection::To,
        CopyTarget::Stdout,
        Some("CSV"),
    ))
    .unwrap();
    assert!(matches!(
        plan,
        Plan::Tail {
            copy_to: Some(CopyFormat::Csv),
            id: 42,
            ..
        }
    ));
}

#[test]
fn copy_refusals() {
    let r: Result<TestPlan, PlanError> = handle_copy(copy(
        CopyRelation::Table,
        CopyDirection::To,
        CopyTarget::Stdout,
        None,
    ));
    assert_eq!(r.unwrap_err().to_string(), "table with COPY TO unsupported");

    let r: Result<TestPlan, PlanError> = handle_copy(copy(
        CopyRelation::Select(select(None)),
        CopyDirection::From,
        CopyTarget::Stdin,
        None,
    ));
    assert_eq!(r.unwrap_err().to_string(), "COPY FROM STDIN not supported");
    let r: Result<TestPlan, PlanError> = handle_copy(copy(
        CopyRelation::Table,
        CopyDirection::To,
        CopyTarget::Stdin,
        None,
    ));
    assert_eq!(r.unwrap_err().to_string(), "COPY TO STDIN not supported");
    let r: Result<TestPlan, PlanError> = handle_copy(copy(
        CopyRelation::Table,
        CopyDirection::From,
        CopyTarget::Stdout,
        None,
    ));
    assert_eq!(r.unwrap_err().to_string(), "COPY FROM STDOUT not supported");

    // The format is looked at before the direction.
    let r: Result<TestPlan, PlanError> = handle_copy(copy(
        CopyRelation::Table,
        CopyDirection::From,
        CopyTarget::Stdin,
        Some("xml"),
    ));
    assert_eq!(r.unwrap_err().to_string(), "unknown FORMAT: xml");

    // The options are looked at before everything else.
    let mut statement = copy(
        CopyRelation::Table,
        CopyDirection::From,
        CopyTarget::Stdin,
        Some("xml"),
    );
    statement.options = Err(planner("options"));
    let r: Result<TestPlan, PlanError> = handle_copy(statement);
    assert_eq!(r.unwrap_err().to_string(), "options");
}

#[test]
fn insert() {
    let plan: TestPlan = handle_insert(InsertStatement {
        planned: Ok((7, "values")),
    })
    .unwrap();
    assert!(matches!(
        plan,
        Plan::Insert {
            id: 7,
            values: "values"
        }
    ));
    let r: Result<TestPlan, PlanError> = handle_insert(InsertStatement {
        planned: Err(planner("no such table")),
    });
    assert_eq!(r.unwrap_err().to_string(), "no such table");
}

fn explain(explainee: Explainee, trivial: bool) -> ExplainStatement<&'static str, &'static str, u8> {
    ExplainStatement {
        stage: ExplainStage::DecorrelatedPlan,
        explainee,
        options: ExplainOptions { typed: true },
        query: Ok(ExplainedQuery {
            raw_plan: "raw",
            decorrelated_plan: "decorrelated",
            finishing: 4,
            finishing_is_trivial: trivial,
        }),
    }
}

#[test]
fn explain_shows_a_finishing_that_matters() {
    let plan: TestPlan = handle_explain(explain(Explainee::Query, false)).unwrap();
    assert!(matches!(
        plan,
        Plan::ExplainPlan {
            raw_plan: "raw",
            decorrelated_plan: "decorrelated",
            row_set_finishing: Some(4),
            stage: ExplainStage::DecorrelatedPlan,
            options: ExplainOptions { typed: true }
        }
    ));
    let plan: TestPlan = handle_explain(explain(Explainee::Query, true)).unwrap();
    assert!(matches!(
        plan,
        Plan::ExplainPlan {
            row_set_finishing: None,
            ..
        }
    ));
    let view = Explainee::View(Ok(("v".to_string(), CatalogItemType::View)));
    let plan: TestPlan = handle_explain(explain(view, false)).unwrap();
    assert!(matches!(
        plan,
        Plan::ExplainPlan {
            row_set_finishing: None,
            ..
        }
    ));
}

#[test]
fn explain_refuses_what_is_no_view() {
    let table = Explainee::View(Ok(("t".to_string(), CatalogItemType::Table)));
    let r: Result<TestPlan, PlanError> = handle_explain(explain(table, false));
    assert_eq!(
        r.unwrap_err().to_string(),
        "Expected t to be a view, not a table"
    );
    let unknown = Explainee::View(Err(planner("unknown item")));
    let r: Result<TestPlan, PlanError> = handle_explain(explain(unknown, false));
    assert_eq!(r.unwrap_err().to_string(), "unknown item");
    let mut statement = explain(Explainee::Query, false);
    statement.query = Err(planner("bad query"));
    let r: Result<TestPlan, PlanError> = handle_explain(statement);
    assert_eq!(r.unwrap_err().to_string(), "bad query");
    // The kind of the item is looked at before the query.
    let mut statement = explain(
        Explainee::View(Ok(("s".to_string(), CatalogItemType::Sink))),
        false,
    );
    statement.query = Err(planner("bad query"));
    let r: Result<TestPlan, PlanError> = handle_explain(statement);
    assert_eq!(
        r.unwrap_err().to_string(),
        "Expected s to be a view, not a sink"
    );
}

#[test]
fn item_types_and_keywords_have_names() {
    assert_eq!(CatalogItemType::Table.name(), "table");
    assert_eq!(CatalogItemType::Source.name(), "source");
    assert_eq!(CatalogItemType::Sink.name(), "sink");
    assert_eq!(CatalogItemType::View.name(), "view");
    assert_eq!(CatalogItemType::Index.name(), "index");
    assert_eq!(CatalogItemType::Type.name(), "type");
    assert_eq!(CopyDirection::To.keyword(), "TO");
    assert_eq!(CopyDirection::From.keyword(), "FROM");
    assert_eq!(CopyTarget::Stdin.keyword(), "STDIN");
    assert_eq!(CopyTarget::Stdout.keyword(), "STDOUT");
}
