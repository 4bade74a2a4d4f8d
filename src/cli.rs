//! The decisions of the developer command line: where generated code goes,
//! how a test case over CSV fixtures is judged, and what rows a benchmark
//! sends.

use crate::casts::decimal_text;
use crate::control::string_texts;
use crate::string::{chars_of, joined, replace___, replace_all, string_of, SqlString};
use crate::schema::{type_tag, Field, Relation};
use rand::distributions::{Alphanumeric, DistString};
use rand::Rng;
use vstd::prelude::*;

verus! {

/// Which build-tool action runs on the generated package.
#[derive(Clone, Copy, Debug, PartialEq, Eq, Structural)]
pub enum CargoCmd {
    Check,
    Build,
}

impl CargoCmd {
    /// The name of the action.
    pub fn as_str(&self) -> (r: &'static str)
        ensures
            r@ == match self {
                CargoCmd::Check => "check"@,
                CargoCmd::Build => "build"@,
            },
    {
        match self {
            CargoCmd::Check => "check",
            CargoCmd::Build => "build",
        }
    }
}

/// Index just past the last `/` of `s`, or 0 when there is none.
pub open spec fn dir_end(s: Seq<char>) -> int
    decreases s.len(),
{
    if s.len() == 0 {
        0
    } else if s.last() == '/' {
        s.len() as int
    } else {
        dir_end(s.drop_last())
    }
}

/// Where the generated program of the SQL file at `input` goes: the
/// directory of `input` under `build/pipeline` (itself when absolute), file
/// `main.rs`.
pub open spec fn output_path_of(input: Seq<char>) -> Seq<char> {
    let dir = input.subrange(0, dir_end(input));
    if input.len() > 0 && input[0] == '/' {
        dir + "main.rs"@
    } else {
        "build/pipeline/"@ + dir + "main.rs"@
    }
}

proof fn lemma_dir_end_bounds(s: Seq<char>)
    ensures
        0 <= dir_end(s) <= s.len(),
    decreases s.len(),
{
    if s.len() > 0 {
        lemma_dir_end_bounds(s.drop_last());
    }
}

/// The path of the generated program for the SQL file at `input_path`.
pub fn create_output_path(input_path: &str) -> (r: String)
    ensures
        r@ == output_path_of(input_path@),
{
    let cs = chars_of(input_path);
    let mut k: usize = cs.len();
    proof {
        lemma_dir_end_bounds(cs@);
    }
    assert(cs@.subrange(0, cs@.len() as int) =~= cs@);
    while k > 0 && cs[k - 1] != '/'
        invariant
            k <= cs@.len(),
            dir_end(cs@) == dir_end(cs@.subrange(0, k as int)),
        decreases k,
    {
        assert(cs@.subrange(0, k as int).drop_last() =~= cs@.subrange(0, k - 1));
        k = k - 1;
    }
    assert(cs@.subrange(0, cs@.len() as int) =~= cs@);
    let mut out: Vec<char> = Vec::new();
    if !(cs.len() > 0 && cs[0] == '/') {
        out = chars_of("build/pipeline/");
    }
    let ghost prefix = out@;
    let mut j: usize = 0;
    while j < k
        invariant
            j <= k <= cs@.len(),
            out@ == prefix + cs@.subrange(0, j as int),
        decreases k - j,
    {
        out.push(cs[j]);
        j = j + 1;
        assert(out@ =~= prefix + cs@.subrange(0, j as int));
    }
    let mut tail = chars_of("main.rs");
    out.append(&mut tail);
    proof {
        if k > 0 {
            assert(cs@.subrange(0, k as int).last() == '/');
        }
        assert(out@ =~= output_path_of(cs@));
    }
    string_of(&out)
}

/// The text after which a pipeline process is ready for work.
pub const READY_MARKER: &'static str = "Pipeline initialization complete.";

/// Whether a line of a pipeline's error stream says it is ready.
pub fn is_ready_line(line: &str) -> (r: bool)
    ensures
        r == exists|i: int| crate::string::occurs_at(line@, READY_MARKER@, i),
{
    {
        let h = chars_of(line);
        let n = chars_of(READY_MARKER);
        proof {
            reveal_strlit("Pipeline initialization complete.");
        }
        assert(n@.len() > 0);
        let mut i: usize = 0;
        while i < h.len()
            invariant
                h@ == line@,
                n@ == READY_MARKER@,
                n@.len() > 0,
                i <= h@.len(),
                forall|j: int| 0 <= j < i ==> !crate::string::occurs_at(h@, n@, j),
            decreases h@.len() - i,
        {
            if crate::string::matches_at(&h, &n, i) {
                return true;
            }
            i = i + 1;
        }
        proof {
            assert forall|j: int| !crate::string::occurs_at(h@, n@, j) by {
                if 0 <= j < i {
                }
            }
        }
        false
    }
}

/// The TCP port on which the pipeline of test case `index` listens.
pub fn test_port(index: u16) -> (r: u16)
    requires
        index <= u16::MAX - 19990,
    ensures
        r == 19990 + index,
{
    19990 + index
}

/// Egress text with each two-character `\n` turned into a newline.
pub fn unescape_newlines(text: &str) -> (r: String)
    ensures
        r@ == replace_all(text@, seq!['\\', 'n'], seq!['\n']),
{
    let needle = SqlString::from_ref("\\n");
    let rep = SqlString::from_ref("\n");
    proof {
        reveal_strlit("\\n");
        reveal_strlit("\n");
        assert(needle@ =~= seq!['\\', 'n']);
        assert(rep@ =~= seq!['\n']);
    }
    replace___(SqlString::from_ref(text), needle, rep).str()
}

/// The payload of the first egress record that carries non-empty text.
pub fn first_payload(records: &Vec<Option<String>>) -> (r: Option<String>)
    ensures
        r is None <==> forall|i: int|
            0 <= i < records@.len() ==> (#[trigger] records@[i] is None || records@[i]->0@.len()
                == 0),
        r matches Some(t) ==> exists|i: int|
            0 <= i < records@.len() && records@[i] == Some(t) && t@.len() > 0 && forall|j: int|
                0 <= j < i ==> (#[trigger] records@[j] is None || records@[j]->0@.len() == 0),
{
    let mut i: usize = 0;
    while i < records.len()
        invariant
            i <= records@.len(),
            forall|j: int|
                0 <= j < i ==> (#[trigger] records@[j] is None || records@[j]->0@.len() == 0),
        decreases records@.len() - i,
    {
        match &records[i] {
            Some(t) => {
                if chars_of(t.as_str()).len() > 0 {
                    let c = t.clone();
                    assert(records@[i as int] == Some(c));
                    return Some(c);
                }
            },
            None => {},
        }
        i = i + 1;
    }
    None
}

/// The verdict on one test case.
#[derive(Clone, Debug, PartialEq, Eq)]
pub enum TestResult {
    /// Every fixture matched.
    Success(String),
    /// The test and the table whose fixture the pipeline did not accept.
    InputError(String, String),
    /// The test, the view, what the pipeline produced and what the fixture
    /// holds.
    OutputError(String, String, String, String),
}

/// What happened to the input fixture of one table.
#[derive(Clone, Debug, PartialEq, Eq)]
pub struct InputCheck {
    pub relation: String,
    /// Whether the test case has a fixture for the table.
    pub fixture: bool,
    /// Whether the pipeline accepted it.
    pub accepted: bool,
}

/// The output of one view: the fixture if there is one, and what the
/// pipeline produced.
#[derive(Clone, Debug, PartialEq, Eq)]
pub struct OutputCheck {
    pub relation: String,
    pub expected: Option<String>,
    pub actual: String,
}

/// Whether an input check failed: a fixture the pipeline did not accept.
pub open spec fn input_failed(c: InputCheck) -> bool {
    c.fixture && !c.accepted
}

/// Whether an output check failed: a fixture that differs from the output.
pub open spec fn output_failed(c: OutputCheck) -> bool {
    c.expected matches Some(e) && e@ != c.actual@
}

/// The verdict on a test case: the first table whose fixture was refused,
/// else the first view whose output differs from its fixture, else success.
/// A table or view without a fixture is skipped.
pub fn judge_test_case(test: &String, inputs: &Vec<InputCheck>, outputs: &Vec<OutputCheck>) -> (r:
    TestResult)
    ensures
        match r {
            TestResult::Success(t) => t@ == test@ && (forall|i: int|
                0 <= i < inputs@.len() ==> !input_failed(#[trigger] inputs@[i])) && (forall|i: int|
                0 <= i < outputs@.len() ==> !output_failed(#[trigger] outputs@[i])),
            TestResult::InputError(t, rel) => t@ == test@ && exists|i: int|
                0 <= i < inputs@.len() && input_failed(#[trigger] inputs@[i]) && rel@
                    == inputs@[i].relation@ && forall|j: int|
                    0 <= j < i ==> !input_failed(#[trigger] inputs@[j]),
            TestResult::OutputError(t, rel, actual, expected) => t@ == test@ && (forall|i: int|
                0 <= i < inputs@.len() ==> !input_failed(#[trigger] inputs@[i])) && exists|i: int|
                0 <= i < outputs@.len() && output_failed(#[trigger] outputs@[i]) && rel@
                    == outputs@[i].relation@ && actual@ == outputs@[i].actual@ && Some(expected@)
                    == (match outputs@[i].expected {
                    Some(e) => Some(e@),
                    None => None,
                }) && forall|j: int| 0 <= j < i ==> !output_failed(#[trigger] outputs@[j]),
        },
{
    let mut i: usize = 0;
    while i < inputs.len()
        invariant
            i <= inputs@.len(),
            forall|j: int| 0 <= j < i ==> !input_failed(#[trigger] inputs@[j]),
        decreases inputs@.len() - i,
    {
        if inputs[i].fixture && !inputs[i].accepted {
            return TestResult::InputError(test.clone(), inputs[i].relation.clone());
        }
        i = i + 1;
    }
    let mut k: usize = 0;
    while k < outputs.len()
        invariant
            k <= outputs@.len(),
            forall|j: int| 0 <= j < inputs@.len() ==> !input_failed(#[trigger] inputs@[j]),
            forall|j: int| 0 <= j < k ==> !output_failed(#[trigger] outputs@[j]),
        decreases outputs@.len() - k,
    {
        match &outputs[k].expected {
            Some(e) => {
                if !crate::string::same_text(e.as_str(), outputs[k].actual.as_str()) {
                    return TestResult::OutputError(
                        test.clone(),
                        outputs[k].relation.clone(),
                        outputs[k].actual.clone(),
                        e.clone(),
                    );
                }
            },
            None => {},
        }
        k = k + 1;
    }
    TestResult::Success(test.clone())
}

/// Number of passed and failed test cases.
pub fn count_results(results: &Vec<TestResult>) -> (r: (usize, usize))
    ensures
        r.0 + r.1 == results@.len(),
        r.0 == results@.filter(|t: TestResult| t is Success).len(),
{
    let mut passed: usize = 0;
    let mut i: usize = 0;
    while i < results.len()
        invariant
            i <= results@.len(),
            passed == results@.subrange(0, i as int).filter(|t: TestResult| t is Success).len(),
            passed <= i,
        decreases results@.len() - i,
    {
        proof {
            let pre = results@.subrange(0, i + 1);
            assert(pre.drop_last() =~= results@.subrange(0, i as int));
            reveal(Seq::filter);
        }
        match &results[i] {
            TestResult::Success(_) => {
                passed = passed + 1;
            },
            _ => {},
        }
        i = i + 1;
    }
    assert(results@.subrange(0, results@.len() as int) =~= results@);
    (passed, results.len() - passed)
}

/// The column types a benchmark can generate values for.
#[derive(Clone, Copy, Debug, PartialEq, Eq, Structural)]
pub enum BenchColumn {
    /// A random integer in `[0, 1024)`.
    BigInt,
    /// A random string of 16 alphanumeric characters.
    Varchar,
    /// A random floating-point number rendered as text.
    Decimal,
}

/// The generated kind of a column of type `tag`, if the benchmark supports it.
pub open spec fn bench_column_of(tag: Seq<char>) -> Option<BenchColumn> {
    if tag == "BIGINT"@ {
        Some(BenchColumn::BigInt)
    } else if tag == "VARCHAR"@ {
        Some(BenchColumn::Varchar)
    } else if tag == "DECIMAL"@ {
        Some(BenchColumn::Decimal)
    } else {
        None
    }
}

/// The generated kinds of the columns of a relation, or the index of the
/// first column of a type the benchmark cannot generate.
pub fn bench_columns(tags: &Vec<String>) -> (r: Result<Vec<BenchColumn>, usize>)
    ensures
        r matches Ok(cols) ==> cols@.len() == tags@.len() && forall|i: int|
            0 <= i < tags@.len() ==> bench_column_of(#[trigger] tags@[i]@) == Some(cols@[i]),
        r matches Err(k) ==> k < tags@.len() && bench_column_of(tags@[k as int]@) is None
            && forall|j: int| 0 <= j < k ==> #[trigger] bench_column_of(tags@[j]@) is Some,
{
    let mut cols: Vec<BenchColumn> = Vec::new();
    let mut i: usize = 0;
    while i < tags.len()
        invariant
            i <= tags@.len(),
            cols@.len() == i,
            forall|j: int| 0 <= j < i ==> bench_column_of(#[trigger] tags@[j]@) == Some(cols@[j]),
        decreases tags@.len() - i,
    {
        let t = tags[i].as_str();
        let c = if crate::string::same_text(t, "BIGINT") {
            BenchColumn::BigInt
        } else if crate::string::same_text(t, "VARCHAR") {
            BenchColumn::Varchar
        } else if crate::string::same_text(t, "DECIMAL") {
            BenchColumn::Decimal
        } else {
            return Err(i);
        };
        cols.push(c);
        i = i + 1;
    }
    Ok(cols)
}

/// Whether a character is an ASCII letter or digit.
pub open spec fn is_ascii_alphanumeric(c: char) -> bool {
    ('0' <= c <= '9') || ('A' <= c <= 'Z') || ('a' <= c <= 'z')
}

/// Whether a text is a generated value of a column of this kind: an integer
/// in `[0, 1024)`, 16 ASCII letters or digits, or the decimal text of a
/// number in `[0, 1)`.
pub open spec fn bench_value_ok(col: BenchColumn, v: Seq<char>) -> bool {
    match col {
        BenchColumn::BigInt => exists|n: int| 0 <= n < 1024 && v == decimal_text(n),
        BenchColumn::Varchar => v.len() == 16 && forall|i: int|
            0 <= i < 16 ==> is_ascii_alphanumeric(#[trigger] v[i]),
        BenchColumn::Decimal => v.len() >= 1 && forall|i: int|
            0 <= i < v.len() ==> ('0' <= #[trigger] v[i] <= '9' || v[i] == '.'),
    }
}

/// Whether `row` is one generated row for columns `cols`: one value per
/// column, each as its column asks, separated by commas.
pub open spec fn bench_row_ok(cols: Seq<BenchColumn>, row: Seq<char>) -> bool {
    exists|vals: Seq<Seq<char>>|
        vals.len() == cols.len() && (forall|i: int|
            0 <= i < cols.len() ==> bench_value_ok(cols[i], #[trigger] vals[i])) && row
            == #[trigger] joined(vals, seq![','])
}

/// Rows one after the other, each ended by a newline.
pub open spec fn rows_text(rs: Seq<Seq<char>>) -> Seq<char>
    decreases rs.len(),
{
    if rs.len() == 0 {
        Seq::empty()
    } else {
        rows_text(rs.drop_last()) + rs.last() + seq!['\n']
    }
}

/// Relies on rand's `Rng::gen_range(0..1024)` on the thread's generator: a
/// number below 1024.
#[verifier::external_body]
fn random_below_1024() -> (r: u64)
    ensures
        r < 1024,
{
    rand::thread_rng().gen_range(0..1024)
}

/// Relies on rand's `Alphanumeric` sampled as a 16-character string: each
/// character an ASCII letter or digit.
#[verifier::external_body]
fn random_word() -> (r: String)
    ensures
        r@.len() == 16,
        forall|i: int| 0 <= i < 16 ==> is_ascii_alphanumeric(#[trigger] r@[i]),
{
    Alphanumeric.sample_string(&mut rand::thread_rng(), 16)
}

/// Whether `decimal` hands out texts of numbers in `[0, 1)` written in
/// digits and a point.
pub open spec fn fraction_source<F: Fn() -> String>(decimal: F) -> bool {
    &&& decimal.requires(())
    &&& forall|t: String| #[trigger] decimal.ensures((), t) ==> bench_value_ok(BenchColumn::Decimal, t@)
}

/// One random value for a column; `decimal` gives those of decimal columns.
fn random_value<F: Fn() -> String>(col: BenchColumn, decimal: &F) -> (r: Vec<char>)
    requires
        fraction_source(*decimal),
    ensures
        bench_value_ok(col, r@),
{
    match col {
        BenchColumn::BigInt => {
            let n = random_below_1024();
            let t = crate::casts::int_text(n as i128);
            let v = chars_of(t.as_str());
            assert(0 <= n < 1024 && v@ == decimal_text(n as int));
            v
        },
        BenchColumn::Varchar => chars_of(random_word().as_str()),
        BenchColumn::Decimal => {
            let t = decimal();
            chars_of(t.as_str())
        },
    }
}

/// One random row for columns `cols`.
fn random_row<F: Fn() -> String>(cols: &Vec<BenchColumn>, decimal: &F) -> (r: Vec<char>)
    requires
        cols@.len() >= 1,
        fraction_source(*decimal),
    ensures
        bench_row_ok(cols@, r@),
        r@.len() >= 1,
{
    let ghost mut vals: Seq<Seq<char>> = Seq::empty();
    let mut out: Vec<char> = Vec::new();
    let mut i: usize = 0;
    while i < cols.len()
        invariant
            fraction_source(*decimal),
            i <= cols@.len(),
            vals.len() == i,
            forall|k: int| 0 <= k < i ==> bench_value_ok(cols@[k], #[trigger] vals[k]),
            out@ == joined(vals, seq![',']),
            i > 0 ==> out@.len() >= 1,
        decreases cols@.len() - i,
    {
        let mut v = random_value(cols[i], decimal);
        let ghost vv = v@;
        let ghost before = out@;
        if i > 0 {
            out.push(',');
        }
        out.append(&mut v);
        proof {
            let nv = vals.push(vv);
            assert(nv.drop_last() =~= vals);
            if i > 0 {
                assert(out@ =~= before + seq![','] + vv);
            } else {
                assert(nv.len() == 1);
                assert(out@ =~= vv);
                assert(vv.len() >= 1);
            }
            vals = nv;
        }
        i = i + 1;
    }
    assert(bench_row_ok(cols@, out@)) by {
        assert(vals.len() == cols@.len());
    }
    out
}

/// The kinds of the columns of a relation whose columns the benchmark can
/// all generate.
pub open spec fn relation_columns(fields: Seq<Field>) -> Seq<BenchColumn> {
    fields.map_values(|f: Field| bench_column_of(type_tag(f.columntype.typ))->0)
}

/// Appends random CSV rows for `relation` to `rows` while it holds at most
/// `bytes` characters; returns how many rows it added. `decimal` renders the
/// random numbers of decimal columns. A relation with a column the benchmark
/// cannot generate gives the index of the first such column, and `rows` is
/// left as it is.
pub fn generate_rows<F: Fn() -> String>(rows: &mut String, relation: &Relation, bytes: usize, decimal: F) -> (r: Result<usize, usize>)
    requires
        relation.fields@.len() >= 1,
        fraction_source(decimal),
    ensures
        r matches Err(k) ==> k < relation.fields@.len() && bench_column_of(
            type_tag(relation.fields@[k as int].columntype.typ),
        ) is None && forall|j: int|
            0 <= j < k ==> #[trigger] bench_column_of(type_tag(relation.fields@[j].columntype.typ))
                is Some,
        r matches Err(_) ==> final(rows)@ == old(rows)@,
        r is Ok <==> forall|j: int|
            0 <= j < relation.fields@.len() ==> #[trigger] bench_column_of(
                type_tag(relation.fields@[j].columntype.typ),
            ) is Some,
        r matches Ok(count) ==> (old(rows)@.len() <= bytes ==> count >= 1) && final(rows)@.len()
            > bytes && exists|rs: Seq<Seq<char>>|
            rs.len() == count && (forall|i: int|
                0 <= i < rs.len() ==> bench_row_ok(relation_columns(relation.fields@), #[trigger] rs[i]))
                && final(rows)@ == old(rows)@ + #[trigger] rows_text(rs),
{
    let mut tags: Vec<String> = Vec::new();
    let mut i: usize = 0;
    while i < relation.fields.len()
        invariant
            i <= relation.fields@.len(),
            tags@.len() == i,
            forall|k: int| 0 <= k < i ==> #[trigger] tags@[k]@ == type_tag(relation.fields@[k].columntype.typ),
        decreases relation.fields@.len() - i,
    {
        tags.push(relation.fields[i].columntype.typ.tag());
        i = i + 1;
    }
    let cols = match bench_columns(&tags) {
        Err(k) => {
            proof {
                assert forall|j: int| 0 <= j < k implies #[trigger] bench_column_of(
                    type_tag(relation.fields@[j].columntype.typ),
                ) is Some by {
                    assert(tags@[j]@ == type_tag(relation.fields@[j].columntype.typ));
                }
                assert(tags@[k as int]@ == type_tag(relation.fields@[k as int].columntype.typ));
            }
            return Err(k);
        },
        Ok(c) => c,
    };
    proof {
        assert(cols@ =~= relation_columns(relation.fields@)) by {
            assert forall|j: int| 0 <= j < cols@.len() implies cols@[j] == relation_columns(
                relation.fields@,
            )[j] by {
                assert(tags@[j]@ == type_tag(relation.fields@[j].columntype.typ));
            }
        }
        assert forall|j: int| 0 <= j < relation.fields@.len() implies #[trigger] bench_column_of(
            type_tag(relation.fields@[j].columntype.typ),
        ) is Some by {
            assert(tags@[j]@ == type_tag(relation.fields@[j].columntype.typ));
        }
    }
    let ghost old_rows = rows@;
    let mut out = chars_of(rows.as_str());
    let ghost mut rs: Seq<Seq<char>> = Seq::empty();
    let mut count: usize = 0;
    assert(out@ =~= old_rows + rows_text(rs));
    while out.len() <= bytes
        invariant
            fraction_source(decimal),
            cols@ == relation_columns(relation.fields@),
            cols@.len() >= 1,
            out@ == old_rows + rows_text(rs),
            count == rs.len(),
            count <= out@.len(),
            forall|k: int| 0 <= k < rs.len() ==> bench_row_ok(cols@, #[trigger] rs[k]),
        decreases (if out@.len() > bytes {
            0
        } else {
            bytes + 1 - out@.len()
        }),
    {
        let mut row = random_row(&cols, &decimal);
        let ghost rw = row@;
        let ghost before = out@;
        out.append(&mut row);
        out.push('\n');
        let n = out.len();
        proof {
            let nrs = rs.push(rw);
            assert(nrs.drop_last() =~= rs);
            assert(out@ =~= old_rows + rows_text(nrs));
            rs = nrs;
        }
        count = count + 1;
    }
    *rows = string_of(&out);
    Ok(count)
}

/// Rows and bytes sent per second over a run of `duration` seconds.
pub fn bench_rates(rows_sent: u64, bytes_sent: u64, duration: u64) -> (r: (u64, u64))
    requires
        duration > 0,
    ensures
        r == (rows_sent / duration, bytes_sent / duration),
{
    (rows_sent / duration, bytes_sent / duration)
}

/// The arguments that launch the generated pipeline through the build tool:
/// run its manifest, in release mode if asked, with the configuration file
/// and the port.
pub fn pipeline_run_args(config: &String, port: u16, release: bool) -> (r: Vec<String>)
    ensures
        string_texts(r@) == seq!["run"@, "--manifest-path"@, "build/pipeline/Cargo.toml"@] + (if release {
            seq!["--release"@]
        } else {
            Seq::<Seq<char>>::empty()
        }) + seq!["--"@, "--config-file"@, config@, "--default-port"@, decimal_text(port as int)],
{
    let mut args: Vec<String> = Vec::new();
    args.push("run".to_string());
    args.push("--manifest-path".to_string());
    args.push("build/pipeline/Cargo.toml".to_string());
    if release {
        args.push("--release".to_string());
    }
    args.push("--".to_string());
    args.push("--config-file".to_string());
    args.push(config.clone());
    args.push("--default-port".to_string());
    args.push(crate::casts::int_text(port as i128));
    assert(string_texts(args@) =~= seq!["run"@, "--manifest-path"@, "build/pipeline/Cargo.toml"@] + (
    if release {
        seq!["--release"@]
    } else {
        Seq::<Seq<char>>::empty()
    }) + seq!["--"@, "--config-file"@, config@, "--default-port"@, decimal_text(port as int)]);
    args
}

} // verus!
