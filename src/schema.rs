//! The program schema that the SQL compiler emits: tables, views, columns
//! and their types, and the canonical form of SQL identifiers.

use crate::string::{chars_of, lower_of, lowercase, same_text, string_of, upper_of, uppercase};
use vstd::prelude::*;

verus! {

/// Whether an identifier is quoted: at least two characters, the first and
/// the last a double quote.
pub open spec fn is_quoted(id: Seq<char>) -> bool {
    id.len() >= 2 && id[0] == '"' && id[id.len() - 1] == '"'
}

/// Canonical form of a SQL identifier: a quoted identifier is case-sensitive
/// and loses its quotes, nothing else; any other is lower-cased.
pub open spec fn canonical_of(id: Seq<char>) -> Seq<char> {
    if is_quoted(id) {
        id.subrange(1, id.len() - 1)
    } else {
        lower_of(id)
    }
}

/// The canonical form of a SQL identifier.
pub fn canonical_identifier(id: &str) -> (r: String)
    ensures
        r@ == canonical_of(id@),
{
    let cs = chars_of(id);
    let n = cs.len();
    if n >= 2 && cs[0] == '"' && cs[n - 1] == '"' {
        let mut inner: Vec<char> = Vec::new();
        let mut i: usize = 1;
        while i < n - 1
            invariant
                n == cs@.len(),
                n >= 2,
                1 <= i <= n - 1,
                inner@ == cs@.subrange(1, i as int),
            decreases n - 1 - i,
        {
            inner.push(cs[i]);
            i = i + 1;
            assert(inner@ =~= cs@.subrange(1, i as int));
        }
        string_of(&inner)
    } else {
        lowercase(id)
    }
}

/// The unit of a SQL interval type.
#[derive(Clone, Copy, Debug, PartialEq, Eq, Hash, Structural)]
pub enum IntervalUnit {
    Day,
    DayToHour,
    DayToMinute,
    DayToSecond,
    Hour,
    HourToMinute,
    HourToSecond,
    Minute,
    MinuteToSecond,
    Month,
    Second,
    Year,
    YearToMonth,
}

/// A SQL type as declared in `CREATE` statements.
#[derive(Clone, Copy, Debug, PartialEq, Eq, Hash, Structural)]
pub enum SqlType {
    Boolean,
    TinyInt,
    SmallInt,
    Int,
    BigInt,
    Real,
    Double,
    Decimal,
    Char,
    Varchar,
    Binary,
    Varbinary,
    Time,
    Date,
    Timestamp,
    Interval(IntervalUnit),
    Array,
    Struct,
    Null,
}

/// The tag of a SQL type in serialized form; every interval is `INTERVAL`.
pub open spec fn type_tag(t: SqlType) -> Seq<char> {
    match t {
        SqlType::Boolean => "BOOLEAN"@,
        SqlType::TinyInt => "TINYINT"@,
        SqlType::SmallInt => "SMALLINT"@,
        SqlType::Int => "INTEGER"@,
        SqlType::BigInt => "BIGINT"@,
        SqlType::Real => "REAL"@,
        SqlType::Double => "DOUBLE"@,
        SqlType::Decimal => "DECIMAL"@,
        SqlType::Char => "CHAR"@,
        SqlType::Varchar => "VARCHAR"@,
        SqlType::Binary => "BINARY"@,
        SqlType::Varbinary => "VARBINARY"@,
        SqlType::Time => "TIME"@,
        SqlType::Date => "DATE"@,
        SqlType::Timestamp => "TIMESTAMP"@,
        SqlType::Interval(_) => "INTERVAL"@,
        SqlType::Array => "ARRAY"@,
        SqlType::Struct => "STRUCT"@,
        SqlType::Null => "NULL"@,
    }
}

impl SqlType {
    /// The tag of the type in serialized form.
    pub fn tag(&self) -> (r: String)
        ensures
            r@ == type_tag(*self),
    {
        let s = match self {
            SqlType::Boolean => "BOOLEAN",
            SqlType::TinyInt => "TINYINT",
            SqlType::SmallInt => "SMALLINT",
            SqlType::Int => "INTEGER",
            SqlType::BigInt => "BIGINT",
            SqlType::Real => "REAL",
            SqlType::Double => "DOUBLE",
            SqlType::Decimal => "DECIMAL",
            SqlType::Char => "CHAR",
            SqlType::Varchar => "VARCHAR",
            SqlType::Binary => "BINARY",
            SqlType::Varbinary => "VARBINARY",
            SqlType::Time => "TIME",
            SqlType::Date => "DATE",
            SqlType::Timestamp => "TIMESTAMP",
            SqlType::Interval(_) => "INTERVAL",
            SqlType::Array => "ARRAY",
            SqlType::Struct => "STRUCT",
            SqlType::Null => "NULL",
        };
        s.to_string()
    }
}

/// The type of an upper-case wire tag, if it is one.
pub open spec fn type_of_tag(t: Seq<char>) -> Option<SqlType> {
    if t == "BOOLEAN"@ {
        Some(SqlType::Boolean)
    } else if t == "TINYINT"@ {
        Some(SqlType::TinyInt)
    } else if t == "SMALLINT"@ {
        Some(SqlType::SmallInt)
    } else if t == "INTEGER"@ {
        Some(SqlType::Int)
    } else if t == "BIGINT"@ {
        Some(SqlType::BigInt)
    } else if t == "REAL"@ {
        Some(SqlType::Real)
    } else if t == "DOUBLE"@ {
        Some(SqlType::Double)
    } else if t == "DECIMAL"@ {
        Some(SqlType::Decimal)
    } else if t == "CHAR"@ {
        Some(SqlType::Char)
    } else if t == "VARCHAR"@ {
        Some(SqlType::Varchar)
    } else if t == "BINARY"@ {
        Some(SqlType::Binary)
    } else if t == "VARBINARY"@ {
        Some(SqlType::Varbinary)
    } else if t == "TIME"@ {
        Some(SqlType::Time)
    } else if t == "DATE"@ {
        Some(SqlType::Date)
    } else if t == "TIMESTAMP"@ {
        Some(SqlType::Timestamp)
    } else if t == "ARRAY"@ {
        Some(SqlType::Array)
    } else if t == "STRUCT"@ {
        Some(SqlType::Struct)
    } else if t == "NULL"@ {
        Some(SqlType::Null)
    } else if t == "INTERVAL_DAY"@ {
        Some(SqlType::Interval(IntervalUnit::Day))
    } else if t == "INTERVAL_DAY_HOUR"@ {
        Some(SqlType::Interval(IntervalUnit::DayToHour))
    } else if t == "INTERVAL_DAY_MINUTE"@ {
        Some(SqlType::Interval(IntervalUnit::DayToMinute))
    } else if t == "INTERVAL_DAY_SECOND"@ {
        Some(SqlType::Interval(IntervalUnit::DayToSecond))
    } else if t == "INTERVAL_HOUR"@ {
        Some(SqlType::Interval(IntervalUnit::Hour))
    } else if t == "INTERVAL_HOUR_MINUTE"@ {
        Some(SqlType::Interval(IntervalUnit::HourToMinute))
    } else if t == "INTERVAL_HOUR_SECOND"@ {
        Some(SqlType::Interval(IntervalUnit::HourToSecond))
    } else if t == "INTERVAL_MINUTE"@ {
        Some(SqlType::Interval(IntervalUnit::Minute))
    } else if t == "INTERVAL_MINUTE_SECOND"@ {
        Some(SqlType::Interval(IntervalUnit::MinuteToSecond))
    } else if t == "INTERVAL_MONTH"@ {
        Some(SqlType::Interval(IntervalUnit::Month))
    } else if t == "INTERVAL_SECOND"@ {
        Some(SqlType::Interval(IntervalUnit::Second))
    } else if t == "INTERVAL_YEAR"@ {
        Some(SqlType::Interval(IntervalUnit::Year))
    } else if t == "INTERVAL_YEAR_MONTH"@ {
        Some(SqlType::Interval(IntervalUnit::YearToMonth))
    } else {
        None
    }
}

impl SqlType {
    /// The type of a wire tag, in any case; an error names an unknown tag.
    pub fn from_tag(tag: &str) -> (r: Result<SqlType, String>)
        ensures
            r is Ok <==> type_of_tag(upper_of(tag@)) is Some,
            r matches Ok(t) ==> type_of_tag(upper_of(tag@)) == Some(t),
    {
        let u = uppercase(tag);
        let u = u.as_str();
        if same_text(u, "BOOLEAN") {
            Ok(SqlType::Boolean)
        } else if same_text(u, "TINYINT") {
            Ok(SqlType::TinyInt)
        } else if same_text(u, "SMALLINT") {
            Ok(SqlType::SmallInt)
        } else if same_text(u, "INTEGER") {
            Ok(SqlType::Int)
        } else if same_text(u, "BIGINT") {
            Ok(SqlType::BigInt)
        } else if same_text(u, "REAL") {
            Ok(SqlType::Real)
        } else if same_text(u, "DOUBLE") {
            Ok(SqlType::Double)
        } else if same_text(u, "DECIMAL") {
            Ok(SqlType::Decimal)
        } else if same_text(u, "CHAR") {
            Ok(SqlType::Char)
        } else if same_text(u, "VARCHAR") {
            Ok(SqlType::Varchar)
        } else if same_text(u, "BINARY") {
            Ok(SqlType::Binary)
        } else if same_text(u, "VARBINARY") {
            Ok(SqlType::Varbinary)
        } else if same_text(u, "TIME") {
            Ok(SqlType::Time)
        } else if same_text(u, "DATE") {
            Ok(SqlType::Date)
        } else if same_text(u, "TIMESTAMP") {
            Ok(SqlType::Timestamp)
        } else if same_text(u, "ARRAY") {
            Ok(SqlType::Array)
        } else if same_text(u, "STRUCT") {
            Ok(SqlType::Struct)
        } else if same_text(u, "NULL") {
            Ok(SqlType::Null)
        } else if same_text(u, "INTERVAL_DAY") {
            Ok(SqlType::Interval(IntervalUnit::Day))
        } else if same_text(u, "INTERVAL_DAY_HOUR") {
            Ok(SqlType::Interval(IntervalUnit::DayToHour))
        } else if same_text(u, "INTERVAL_DAY_MINUTE") {
            Ok(SqlType::Interval(IntervalUnit::DayToMinute))
        } else if same_text(u, "INTERVAL_DAY_SECOND") {
            Ok(SqlType::Interval(IntervalUnit::DayToSecond))
        } else if same_text(u, "INTERVAL_HOUR") {
            Ok(SqlType::Interval(IntervalUnit::Hour))
        } else if same_text(u, "INTERVAL_HOUR_MINUTE") {
            Ok(SqlType::Interval(IntervalUnit::HourToMinute))
        } else if same_text(u, "INTERVAL_HOUR_SECOND") {
            Ok(SqlType::Interval(IntervalUnit::HourToSecond))
        } else if same_text(u, "INTERVAL_MINUTE") {
            Ok(SqlType::Interval(IntervalUnit::Minute))
        } else if same_text(u, "INTERVAL_MINUTE_SECOND") {
            Ok(SqlType::Interval(IntervalUnit::MinuteToSecond))
        } else if same_text(u, "INTERVAL_MONTH") {
            Ok(SqlType::Interval(IntervalUnit::Month))
        } else if same_text(u, "INTERVAL_SECOND") {
            Ok(SqlType::Interval(IntervalUnit::Second))
        } else if same_text(u, "INTERVAL_YEAR") {
            Ok(SqlType::Interval(IntervalUnit::Year))
        } else if same_text(u, "INTERVAL_YEAR_MONTH") {
            Ok(SqlType::Interval(IntervalUnit::YearToMonth))
        } else {
            let mut msg = "unknown SQL type: ".to_string();
            msg.append(tag);
            Err(msg)
        }
    }
}

/// The type of a column.
#[derive(Debug, PartialEq, Eq)]
pub struct ColumnType {
    /// The type; a missing tag means a struct.
    pub typ: SqlType,
    /// Whether the column takes NULL.
    pub nullable: bool,
    /// Precision (`VARCHAR(255)` has 255, `VARCHAR` has -1).
    pub precision: Option<i64>,
    /// Scale (`DECIMAL(1,2)` has 2).
    pub scale: Option<i64>,
    /// The element type of an array.
    pub component: Option<Box<ColumnType>>,
    /// The members of a struct.
    pub fields: Option<Vec<Field>>,
}

/// A column of a table or view, or a member of a struct.
#[derive(Debug, PartialEq, Eq)]
pub struct Field {
    pub name: String,
    pub case_sensitive: bool,
    pub columntype: ColumnType,
}

/// A table or a view: a name and its columns.
#[derive(Debug, PartialEq, Eq)]
pub struct Relation {
    /// The name as given; `name()` gives the canonical one.
    pub name: String,
    pub case_sensitive: bool,
    pub fields: Vec<Field>,
}

impl Relation {
    /// The name as it was given.
    pub open spec fn given_name(&self) -> Seq<char> {
        self.name@
    }

    /// A relation named `name` with these columns.
    pub fn new(name: &str, case_sensitive: bool, fields: Vec<Field>) -> (r: Relation)
        ensures
            r.given_name() == name@,
            r.case_sensitive == case_sensitive,
            r.fields == fields,
    {
        Relation { name: name.to_string(), case_sensitive, fields }
    }

    /// The canonical name: as given when case-sensitive, else lower-cased.
    pub fn name(&self) -> (r: String)
        ensures
            r@ == if self.case_sensitive {
                self.given_name()
            } else {
                lower_of(self.given_name())
            },
    {
        if self.case_sensitive {
            self.name.clone()
        } else {
            lowercase(self.name.as_str())
        }
    }
}

/// The tables (inputs) and views (outputs) of a program.
#[derive(Debug, PartialEq, Eq)]
pub struct ProgramSchema {
    pub inputs: Vec<Relation>,
    pub outputs: Vec<Relation>,
}

} // verus!
