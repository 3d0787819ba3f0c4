//! The statement handlers that turn a planned statement into a plan.
//!
//! A handler is given what name resolution, the catalog and the query
//! planner made of a statement: values where they succeeded, errors where
//! they did not. It decides which error is reported, what is refused, and
//! which plan is built.

use vstd::prelude::*;

verus! {

/// The kinds of items that a catalog holds.
#[derive(Clone, Copy, Debug, PartialEq, Eq, Structural)]
pub enum CatalogItemType {
    Table,
    Source,
    Sink,
    View,
    Index,
    Type,
}

impl CatalogItemType {
    /// The kind in a word, as it stands in error messages.
    pub open spec fn spec_name(self) -> Seq<char> {
        match self {
            CatalogItemType::Table => "table"@,
            CatalogItemType::Source => "source"@,
            CatalogItemType::Sink => "sink"@,
            CatalogItemType::View => "view"@,
            CatalogItemType::Index => "index"@,
            CatalogItemType::Type => "type"@,
        }
    }

    /// The kind in a word, as it stands in error messages.
    pub fn name(self) -> (name: &'static str)
        ensures
            name@ == self.spec_name(),
    {
        match self {
            CatalogItemType::Table => "table",
            CatalogItemType::Source => "source",
            CatalogItemType::Sink => "sink",
            CatalogItemType::View => "view",
            CatalogItemType::Index => "index",
            CatalogItemType::Type => "type",
        }
    }

    /// Whether changes to an item of this kind can be followed: they can for
    /// tables, sources and views.
    pub open spec fn can_be_tailed(self) -> bool {
        self == CatalogItemType::Table || self == CatalogItemType::Source || self
            == CatalogItemType::View
    }
}

/// The formats in which rows are copied.
#[derive(Clone, Copy, Debug, PartialEq, Eq, Structural)]
pub enum CopyFormat {
    Text,
    Csv,
    Binary,
}

/// The direction of a copy.
#[derive(Clone, Copy, Debug, PartialEq, Eq, Structural)]
pub enum CopyDirection {
    To,
    From,
}

impl CopyDirection {
    /// The direction as the statement spells it.
    pub open spec fn spec_keyword(self) -> Seq<char> {
        match self {
            CopyDirection::To => "TO"@,
            CopyDirection::From => "FROM"@,
        }
    }

    /// The direction as the statement spells it.
    pub fn keyword(self) -> (keyword: &'static str)
        ensures
            keyword@ == self.spec_keyword(),
    {
        match self {
            CopyDirection::To => "TO",
            CopyDirection::From => "FROM",
        }
    }
}

/// The other end of a copy.
#[derive(Clone, Copy, Debug, PartialEq, Eq, Structural)]
pub enum CopyTarget {
    Stdin,
    Stdout,
}

impl CopyTarget {
    /// The target as the statement spells it.
    pub open spec fn spec_keyword(self) -> Seq<char> {
        match self {
            CopyTarget::Stdin => "STDIN"@,
            CopyTarget::Stdout => "STDOUT"@,
        }
    }

    /// The target as the statement spells it.
    pub fn keyword(self) -> (keyword: &'static str)
        ensures
            keyword@ == self.spec_keyword(),
    {
        match self {
            CopyTarget::Stdin => "STDIN",
            CopyTarget::Stdout => "STDOUT",
        }
    }
}

/// When a peek reads.
#[derive(Clone, Copy, Debug, PartialEq, Eq, Structural)]
pub enum PeekWhen {
    /// As soon as it can.
    Immediately,
    /// At the given time.
    AtTimestamp(u64),
}

/// The stage of planning that an explanation shows.
#[derive(Clone, Copy, Debug, PartialEq, Eq, Structural)]
pub enum ExplainStage {
    RawPlan,
    DecorrelatedPlan,
    OptimizedPlan,
}

/// How an explanation is written.
#[derive(Clone, Copy, Debug, PartialEq, Eq, Structural)]
pub struct ExplainOptions {
    pub typed: bool,
}

/// Why a statement has no plan.
#[derive(Debug)]
pub enum PlanError {
    /// Something that is not supported yet.
    Unsupported(String),
    /// An explanation of something that is no view.
    NotAView { name: String, item_type: CatalogItemType },
    /// A tail of something that cannot be tailed.
    CannotTail { name: String, item_type: CatalogItemType },
    /// A copy in a format that is not known.
    UnknownFormat(String),
    /// A copy of a table to somewhere.
    TableCopyTo,
    /// A copy in a direction or to a target that is not supported.
    CopyNotSupported { direction: CopyDirection, target: CopyTarget },
    /// An error of name resolution, of the catalog or of the planner, as it
    /// was handed in.
    Planner(String),
}

impl PlanError {
    /// The error in words.
    pub open spec fn spec_message(self) -> Seq<char> {
        match self {
            PlanError::Unsupported(feature) => feature@ + " not yet supported"@,
            PlanError::NotAView { name, item_type } => "Expected "@ + name@ + " to be a view, not a "@
                + item_type.spec_name(),
            PlanError::CannotTail { name, item_type } => "'"@ + name@
                + "' cannot be tailed because it is a "@ + item_type.spec_name(),
            PlanError::UnknownFormat(format) => "unknown FORMAT: "@ + format@,
            PlanError::TableCopyTo => "table with COPY TO unsupported"@,
            PlanError::CopyNotSupported { direction, target } => "COPY "@ + direction.spec_keyword()
                + " "@ + target.spec_keyword() + " not supported"@,
            PlanError::Planner(message) => message@,
        }
    }

    /// The error in words.
    pub fn to_string(&self) -> (text: String)
        ensures
            text@ == self.spec_message(),
    {
        match self {
            PlanError::Unsupported(feature) => {
                let mut text = feature.clone();
                text.append(" not yet supported");
                text
            },
            PlanError::NotAView { name, item_type } => {
                let mut text = String::from_str("Expected ");
                text.append(name.as_str());
                text.append(" to be a view, not a ");
                text.append(item_type.name());
                text
            },
            PlanError::CannotTail { name, item_type } => {
                let mut text = String::from_str("'");
                text.append(name.as_str());
                text.append("' cannot be tailed because it is a ");
                text.append(item_type.name());
                text
            },
            PlanError::UnknownFormat(format) => {
                let mut text = String::from_str("unknown FORMAT: ");
                text.append(format.as_str());
                text
            },
            PlanError::TableCopyTo => String::from_str("table with COPY TO unsupported"),
            PlanError::CopyNotSupported { direction, target } => {
                let mut text = String::from_str("COPY ");
                text.append(direction.keyword());
                text.append(" ");
                text.append(target.keyword());
                text.append(" not supported");
                text
            },
            PlanError::Planner(message) => message.clone(),
        }
    }
}

/// A plan: what is to be done for a statement. `R` is a raw relation
/// expression, `E` a decorrelated one, `F` what finishes a set of rows.
#[derive(Debug)]
pub enum Plan<R, E, F> {
    SetVariable { name: String, value: String },
    ShowAllVariables,
    ShowVariable(String),
    Peek { source: E, when: PeekWhen, finishing: F, copy_to: Option<CopyFormat> },
    Tail {
        id: u64,
        ts: Option<u64>,
        with_snapshot: bool,
        copy_to: Option<CopyFormat>,
        emit_progress: bool,
        object_columns: usize,
    },
    Insert { id: u64, values: E },
    ExplainPlan {
        raw_plan: R,
        decorrelated_plan: E,
        row_set_finishing: Option<F>,
        stage: ExplainStage,
        options: ExplainOptions,
    },
}

/// The value that a variable is set to.
#[derive(Debug)]
pub enum SetVariableValue {
    /// A string literal, with the string that it stands for.
    StringLiteral(String),
    /// Any other literal, as the statement spells it.
    Literal(String),
    /// An identifier.
    Ident(String),
}

impl SetVariableValue {
    /// The text that the variable is set to.
    pub open spec fn spec_text(self) -> Seq<char> {
        match self {
            SetVariableValue::StringLiteral(s) => s@,
            SetVariableValue::Literal(s) => s@,
            SetVariableValue::Ident(s) => s@,
        }
    }
}

/// A statement that sets a variable.
#[derive(Debug)]
pub struct SetVariableStatement {
    pub local: bool,
    pub variable: String,
    pub value: SetVariableValue,
}

/// Plans the setting of a variable. Setting a variable for the transaction
/// alone is not supported.
pub fn handle_set_variable<R, E, F>(statement: SetVariableStatement) -> (r: Result<
    Plan<R, E, F>,
    PlanError,
>)
    ensures
        match r {
            Ok(Plan::SetVariable { name, value }) => !statement.local && name@ == statement.variable@
                && value@ == statement.value.spec_text(),
            Ok(_) => false,
            Err(PlanError::Unsupported(feature)) => statement.local && feature@ == "SET LOCAL"@,
            Err(_) => false,
        },
{
    let SetVariableStatement { local, variable, value } = statement;
    if local {
        return Err(PlanError::Unsupported(String::from_str("SET LOCAL")));
    }
    Ok(
        Plan::SetVariable {
            name: variable,
            value: match value {
                SetVariableValue::StringLiteral(s) => s,
                SetVariableValue::Literal(lit) => lit,
                SetVariableValue::Ident(ident) => ident,
            },
        },
    )
}

/// The lower-case form of an ASCII capital, and every other character as it
/// is.
pub open spec fn ascii_lower(c: char) -> char {
    if 'A' <= c <= 'Z' {
        ((c as int) + 32) as char
    } else {
        c
    }
}

/// Whether two texts are the same but for the case of their ASCII letters.
pub open spec fn eq_ignore_ascii_case(a: Seq<char>, b: Seq<char>) -> bool {
    a.len() == b.len() && forall|i: int| 0 <= i < a.len() ==> ascii_lower(a[i]) == ascii_lower(b[i])
}

/// The comparison of `unicase::Ascii` with a string: whether the two are the
/// same but for the case of their ASCII letters.
#[verifier::external_body]
fn ascii_case_insensitive_eq(text: &str, other: &str) -> (same: bool)
    ensures
        same == eq_ignore_ascii_case(text@, other@),
{
    text == unicase::Ascii::new(other)
}

/// Plans the showing of a variable, or of all variables where the name is
/// `ALL` in any case.
pub fn handle_show_variable<R, E, F>(variable: &str) -> (plan: Plan<R, E, F>)
    ensures
        match plan {
            Plan::ShowAllVariables => eq_ignore_ascii_case(variable@, "ALL"@),
            Plan::ShowVariable(name) => !eq_ignore_ascii_case(variable@, "ALL"@) && name@ == variable@,
            _ => false,
        },
{
    if ascii_case_insensitive_eq(variable, "ALL") {
        Plan::ShowAllVariables
    } else {
        Plan::ShowVariable(String::from_str(variable))
    }
}

/// What the planner made of a query: the decorrelated expression with its
/// parameters bound, and what finishes its rows.
pub struct PlannedQuery<E, F> {
    pub source: E,
    pub finishing: F,
}

/// A select statement as the planner left it.
pub struct SelectStatement<E, F> {
    /// The planned query, or why it could not be planned.
    pub query: Result<PlannedQuery<E, F>, PlanError>,
    /// The time to read at, where the statement names one.
    pub as_of: Option<Result<u64, PlanError>>,
}

/// The plan of a select: a peek at the planned query, at the time that the
/// statement names or else immediately. An error of the planner comes before
/// an error of the time.
pub open spec fn select_plan<R, E, F>(
    statement: SelectStatement<E, F>,
    copy_to: Option<CopyFormat>,
) -> Result<Plan<R, E, F>, PlanError> {
    match statement.query {
        Err(e) => Err(e),
        Ok(planned) => match statement.as_of {
            Some(Err(e)) => Err(e),
            Some(Ok(ts)) => Ok(
                Plan::Peek {
                    source: planned.source,
                    when: PeekWhen::AtTimestamp(ts),
                    finishing: planned.finishing,
                    copy_to,
                },
            ),
            None => Ok(
                Plan::Peek {
                    source: planned.source,
                    when: PeekWhen::Immediately,
                    finishing: planned.finishing,
                    copy_to,
                },
            ),
        },
    }
}

/// Plans a select: a peek at the planned query, at the time that the
/// statement names or else immediately. An error of the planner comes before
/// an error of the time.
pub fn handle_select<R, E, F>(statement: SelectStatement<E, F>, copy_to: Option<CopyFormat>) -> (r:
    Result<Plan<R, E, F>, PlanError>)
    ensures
        r == select_plan::<R, E, F>(statement, copy_to),
{
    let SelectStatement { query, as_of } = statement;
    let planned = match query {
        Ok(planned) => planned,
        Err(e) => {
            return Err(e);
        },
    };
    let when = match as_of {
        Some(Ok(ts)) => PeekWhen::AtTimestamp(ts),
        Some(Err(e)) => {
            return Err(e);
        },
        None => PeekWhen::Immediately,
    };
    Ok(Plan::Peek { source: planned.source, when, finishing: planned.finishing, copy_to })
}

/// The options of a tail.
#[derive(Clone, Copy, Debug)]
pub struct TailOptions {
    pub snapshot: Option<bool>,
    pub progress: Option<bool>,
}

/// An item of the catalog, as far as a tail looks at it.
pub struct CatalogEntry {
    pub name: String,
    pub id: u64,
    pub item_type: CatalogItemType,
    /// How many columns the item has, or why it has no description.
    pub arity: Result<usize, PlanError>,
}

/// A tail statement as name resolution and the catalog left it.
pub struct TailStatement {
    /// The item that the name stands for, or why it stands for none.
    pub entry: Result<CatalogEntry, PlanError>,
    /// The options, or what is wrong with them.
    pub options: Result<TailOptions, PlanError>,
    /// The time to start at, where the statement names one.
    pub as_of: Option<Result<u64, PlanError>>,
}

/// The plan of a tail of a table, a source or a view; other items cannot
/// be tailed. The snapshot is sent unless the options say otherwise,
/// progress is not.
///
/// Errors come in this order: the name, the time, the options, the kind of
/// the item, its description.
pub open spec fn tail_plan<R, E, F>(statement: TailStatement, copy_to: Option<CopyFormat>) -> Result<
    Plan<R, E, F>,
    PlanError,
> {
    match statement.entry {
        Err(e) => Err(e),
        Ok(entry) => match statement.as_of {
            Some(Err(e)) => Err(e),
            _ => match statement.options {
                Err(e) => Err(e),
                Ok(options) => if !entry.item_type.can_be_tailed() {
                    Err(PlanError::CannotTail { name: entry.name, item_type: entry.item_type })
                } else {
                    match entry.arity {
                        Err(e) => Err(e),
                        Ok(object_columns) => Ok(
                            Plan::Tail {
                                id: entry.id,
                                ts: match statement.as_of {
                                    Some(Ok(ts)) => Some(ts),
                                    _ => None,
                                },
                                with_snapshot: match options.snapshot {
                                    Some(snapshot) => snapshot,
                                    None => true,
                                },
                                copy_to,
                                emit_progress: match options.progress {
                                    Some(progress) => progress,
                                    None => false,
                                },
                                object_columns,
                            },
                        ),
                    }
                },
            },
        },
    }
}

/// Plans a tail of a table, a source or a view; other items cannot be
/// tailed.
pub fn handle_tail<R, E, F>(statement: TailStatement, copy_to: Option<CopyFormat>) -> (r: Result<
    Plan<R, E, F>,
    PlanError,
>)
    ensures
        r == tail_plan::<R, E, F>(statement, copy_to),
{
    let TailStatement { entry, options, as_of } = statement;
    let entry = match entry {
        Ok(entry) => entry,
        Err(e) => {
            return Err(e);
        },
    };
    let ts = match as_of {
        Some(Ok(ts)) => Some(ts),
        Some(Err(e)) => {
            return Err(e);
        },
        None => None,
    };
    let options = match options {
        Ok(options) => options,
        Err(e) => {
            return Err(e);
        },
    };
    match entry.item_type {
        CatalogItemType::Table | CatalogItemType::Source | CatalogItemType::View => {
            let object_columns = match entry.arity {
                Ok(arity) => arity,
                Err(e) => {
                    return Err(e);
                },
            };
            Ok(
                Plan::Tail {
                    id: entry.id,
                    ts,
                    with_snapshot: match options.snapshot {
                        Some(snapshot) => snapshot,
                        None => true,
                    },
                    copy_to,
                    emit_progress: match options.progress {
                        Some(progress) => progress,
                        None => false,
                    },
                    object_columns,
                },
            )
        },
        CatalogItemType::Index | CatalogItemType::Sink | CatalogItemType::Type => Err(
            PlanError::CannotTail { name: entry.name, item_type: entry.item_type },
        ),
    }
}

/// The lower-case form of a text.
pub uninterp spec fn lowercase(text: Seq<char>) -> Seq<char>;

/// `str::to_lowercase` of the standard library: the text with every
/// character in its lower-case form.
#[verifier::external_body]
fn to_lowercase(text: &str) -> (lower: String)
    ensures
        lower@ == lowercase(text@),
{
    text.to_lowercase()
}

/// The format that a lower-case name stands for.
pub open spec fn format_named(lower: Seq<char>) -> Option<CopyFormat> {
    if lower == "text"@ {
        Some(CopyFormat::Text)
    } else if lower == "csv"@ {
        Some(CopyFormat::Csv)
    } else if lower == "binary"@ {
        Some(CopyFormat::Binary)
    } else {
        None
    }
}

/// The format that a lower-case name stands for: `text`, `csv` or `binary`.
pub fn copy_format_named(lower: &str) -> (format: Option<CopyFormat>)
    ensures
        format == format_named(lower@),
{
    let lower = String::from_str(lower);
    if lower == String::from_str("text") {
        Some(CopyFormat::Text)
    } else if lower == String::from_str("csv") {
        Some(CopyFormat::Csv)
    } else if lower == String::from_str("binary") {
        Some(CopyFormat::Binary)
    } else {
        None
    }
}

/// The format of a copy: the one that the options name, in any case of
/// letters, and text where they name none.
pub open spec fn chosen_format(format: Option<String>) -> Result<CopyFormat, PlanError> {
    match format {
        None => Ok(CopyFormat::Text),
        Some(name) => match format_named(lowercase(name@)) {
            Some(known) => Ok(known),
            None => Err(PlanError::UnknownFormat(name)),
        },
    }
}

/// The format of a copy: the one that the options name, in any case of
/// letters, and text where they name none.
pub fn copy_format(format: Option<String>) -> (r: Result<CopyFormat, PlanError>)
    ensures
        r == chosen_format(format),
{
    match format {
        Some(name) => {
            let lower = to_lowercase(name.as_str());
            match copy_format_named(lower.as_str()) {
                Some(known) => Ok(known),
                None => Err(PlanError::UnknownFormat(name)),
            }
        },
        None => Ok(CopyFormat::Text),
    }
}

/// What is copied.
pub enum CopyRelation<E, F> {
    Table,
    Select(SelectStatement<E, F>),
    Tail(TailStatement),
}

/// The options of a copy.
pub struct CopyOptions {
    pub format: Option<String>,
}

/// A copy statement as the planner left it.
pub struct CopyStatement<E, F> {
    pub relation: CopyRelation<E, F>,
    pub direction: CopyDirection,
    pub target: CopyTarget,
    /// The options, or what is wrong with them.
    pub options: Result<CopyOptions, PlanError>,
}

/// The plan of a copy. Only a select or a tail can be copied, and only to
/// the standard output; the rows go out in the format that the options name.
///
/// Errors come in this order: the options, the format, the direction and
/// the target, what is copied.
pub open spec fn copy_plan<R, E, F>(statement: CopyStatement<E, F>) -> Result<Plan<R, E, F>, PlanError> {
    match statement.options {
        Err(e) => Err(e),
        Ok(options) => match chosen_format(options.format) {
            Err(e) => Err(e),
            Ok(format) => if statement.direction == CopyDirection::To && statement.target
                == CopyTarget::Stdout {
                match statement.relation {
                    CopyRelation::Table => Err(PlanError::TableCopyTo),
                    CopyRelation::Select(select) => select_plan::<R, E, F>(select, Some(format)),
                    CopyRelation::Tail(tail) => tail_plan::<R, E, F>(tail, Some(format)),
                }
            } else {
                Err(
                    PlanError::CopyNotSupported {
                        direction: statement.direction,
                        target: statement.target,
                    },
                )
            },
        },
    }
}

/// Plans a copy of a select or of a tail to the standard output.
pub fn handle_copy<R, E, F>(statement: CopyStatement<E, F>) -> (r: Result<Plan<R, E, F>, PlanError>)
    ensures
        r == copy_plan::<R, E, F>(statement),
{
    let CopyStatement { relation, direction, target, options } = statement;
    let options = match options {
        Ok(options) => options,
        Err(e) => {
            return Err(e);
        },
    };
    let format = match copy_format(options.format) {
        Ok(format) => format,
        Err(e) => {
            return Err(e);
        },
    };
    match (direction, target) {
        (CopyDirection::To, CopyTarget::Stdout) => match relation {
            CopyRelation::Table => Err(PlanError::TableCopyTo),
            CopyRelation::Select(stmt) => handle_select(stmt, Some(format)),
            CopyRelation::Tail(stmt) => handle_tail(stmt, Some(format)),
        },
        _ => Err(PlanError::CopyNotSupported { direction, target }),
    }
}

/// An insert statement as the planner left it: the table and the planned
/// values, or why the insert could not be planned.
pub struct InsertStatement<E> {
    pub planned: Result<(u64, E), PlanError>,
}

/// Plans an insert of the planned values into the table.
pub fn handle_insert<R, E, F>(statement: InsertStatement<E>) -> (r: Result<Plan<R, E, F>, PlanError>)
    ensures
        match r {
            Ok(Plan::Insert { id, values }) => statement.planned == Ok::<(u64, E), PlanError>(
                (id, values),
            ),
            Ok(_) => false,
            Err(e) => statement.planned == Err::<(u64, E), PlanError>(e),
        },
{
    match statement.planned {
        Ok((id, values)) => Ok(Plan::Insert { id, values }),
        Err(e) => Err(e),
    }
}

/// What is explained.
pub enum Explainee {
    /// The item that a name stands for, or why the name stands for none.
    View(Result<(String, CatalogItemType), PlanError>),
    /// A query.
    Query,
}

/// What the planner made of the query that is explained.
pub struct ExplainedQuery<R, E, F> {
    /// The raw plan, with the finishing worked in where a view is explained.
    pub raw_plan: R,
    /// The raw plan decorrelated.
    pub decorrelated_plan: E,
    /// What finishes the rows of the query.
    pub finishing: F,
    /// Whether the finishing does nothing to rows of the query's width.
    pub finishing_is_trivial: bool,
}

/// An explain statement as name resolution and the planner left it.
pub struct ExplainStatement<R, E, F> {
    pub stage: ExplainStage,
    pub explainee: Explainee,
    pub options: ExplainOptions,
    /// The planned query, or why it could not be planned.
    pub query: Result<ExplainedQuery<R, E, F>, PlanError>,
}

/// Whether a view is explained.
pub open spec fn explains_view(explainee: Explainee) -> bool {
    explainee is View
}

/// Plans an explanation. Where a name is given it must be the name of a
/// view. The finishing is shown only for a query, and only where it does
/// something: a view has its finishing worked into the plan.
pub fn handle_explain<R, E, F>(statement: ExplainStatement<R, E, F>) -> (r: Result<
    Plan<R, E, F>,
    PlanError,
>)
    ensures
        match statement.explainee {
            Explainee::View(Err(first)) => r == Err::<Plan<R, E, F>, PlanError>(first),
            Explainee::View(Ok((name, item_type))) if item_type != CatalogItemType::View => r == Err::<
                Plan<R, E, F>,
                PlanError,
            >(PlanError::NotAView { name, item_type }),
            _ => match statement.query {
                Err(e) => r == Err::<Plan<R, E, F>, PlanError>(e),
                Ok(query) => r == Ok::<Plan<R, E, F>, PlanError>(
                    Plan::ExplainPlan {
                        raw_plan: query.raw_plan,
                        decorrelated_plan: query.decorrelated_plan,
                        row_set_finishing: if explains_view(statement.explainee)
                            || query.finishing_is_trivial {
                            None
                        } else {
                            Some(query.finishing)
                        },
                        stage: statement.stage,
                        options: statement.options,
                    },
                ),
            },
        },
{
    let ExplainStatement { stage, explainee, options, query } = statement;
    let is_view = match explainee {
        Explainee::View(Ok((name, item_type))) => {
            if item_type != CatalogItemType::View {
                return Err(PlanError::NotAView { name, item_type });
            }
            true
        },
        Explainee::View(Err(e)) => {
            return Err(e);
        },
        Explainee::Query => false,
    };
    let query = match query {
        Ok(query) => query,
        Err(e) => {
            return Err(e);
        },
    };
    let finishing = if is_view {
        // views don't use a separate finishing
        None
    } else if query.finishing_is_trivial {
        None
    } else {
        Some(query.finishing)
    };
    Ok(
        Plan::ExplainPlan {
            raw_plan: query.raw_plan,
            decorrelated_plan: query.decorrelated_plan,
            row_set_finishing: finishing,
            stage,
            options,
        },
    )
}

} // verus!
