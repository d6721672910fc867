//! The formula catalog: the spreadsheet-style formulas the surrounding
//! service evaluates, and the validation of formula requests.
//!
//! The catalog, name resolution and request validation are the library's
//! logic. The evaluation itself aggregates floating-point row values and
//! lives with the service layer.

use vstd::prelude::*;
use vstd::string::StringExecFns;
use vstd::string::StrSliceExecFns;

use crate::value::Value;

verus! {

/// Two characters are the same ASCII letter up to case, or identical.
pub open spec fn eq_ic_char(x: char, y: char) -> bool {
    ||| x == y
    ||| ('a' <= x && x <= 'z' && y as int == x as int - 32)
    ||| ('A' <= x && x <= 'Z' && y as int == x as int + 32)
}

/// Two texts are equal up to ASCII case.
pub open spec fn eq_ignore_ascii_case(a: Seq<char>, b: Seq<char>) -> bool {
    a.len() == b.len() && forall|i: int| 0 <= i < a.len() ==> eq_ic_char(#[trigger] a[i], b[i])
}

/// Whether two text slices are equal up to ASCII case.
pub fn str_eq_ignore_ascii_case(a: &str, b: &str) -> (r: bool)
    ensures
        r == eq_ignore_ascii_case(a@, b@),
{
    let na = a.unicode_len();
    let nb = b.unicode_len();
    if na != nb {
        return false;
    }
    let mut i: usize = 0;
    while i < na
        invariant
            na == a@.len(),
            na == b@.len(),
            0 <= i <= na,
            forall|j: int| 0 <= j < i ==> eq_ic_char(#[trigger] a@[j], b@[j]),
        decreases na - i,
    {
        let x = a.get_char(i);
        let y = b.get_char(i);
        let same = if x == y {
            true
        } else if 'a' <= x && x <= 'z' {
            y as u32 == x as u32 - 32
        } else if 'A' <= x && x <= 'Z' {
            y as u32 == x as u32 + 32
        } else {
            false
        };
        if !same {
            return false;
        }
        i += 1;
    }
    true
}

/// One formula the service can evaluate: its name and how to call it.
#[derive(Debug, Clone, PartialEq)]
pub struct FormulaInfo {
    pub name: String,
    pub description: String,
    pub complexity: String,
    pub required_params: Vec<String>,
    pub optional_params: Vec<String>,
    pub examples: Vec<String>,
}

/// Parameters of a formula request; which of them matter depends on the
/// formula.
#[derive(Debug, Clone, PartialEq)]
pub struct FormulaParameters {
    pub input_columns: Vec<String>,
    pub criteria_columns: Option<Vec<String>>,
    pub criteria_values: Option<Vec<Value>>,
    pub separator: Option<String>,
    pub aggregation_type: Option<String>,
    pub lookup_table: Option<Vec<Value>>,
    pub lookup_key: Option<String>,
    pub return_column: Option<String>,
    pub optional_params: Vec<String>,
}

/// Where a formula writes its output.
#[derive(Debug, Clone, PartialEq)]
pub struct OutputConfig {
    pub output_column: String,
    pub include_metadata: bool,
    pub sample_size: Option<usize>,
}

/// A request to evaluate a named formula over rows of values.
#[derive(Debug, Clone, PartialEq)]
pub struct AdvancedFormulaRequest {
    pub formula_type: String,
    pub data: Vec<Value>,
    pub parameters: FormulaParameters,
    pub output_config: OutputConfig,
}

/// A formula evaluation's outcome: the produced rows and timing.
#[derive(Debug, Clone, PartialEq)]
pub struct FormulaResult {
    pub status: String,
    pub data: Vec<Value>,
    pub metadata: Vec<Value>,
    pub processing_time_ms: u64,
    pub formula_type: String,
}

/// The catalog's formula names, in registration order.
pub open spec fn formula_names() -> Seq<Seq<char>> {
    seq!["SUMIFS"@, "PIVOT"@, "TEXT_JOIN"@, "VLOOKUP"@]
}

/// A request names the formula at a catalog position when its type
/// matches that name up to ASCII case.
pub open spec fn names_formula(t: Seq<char>, k: int) -> bool {
    0 <= k < formula_names().len() && eq_ignore_ascii_case(t, formula_names()[k])
}

/// A well-formed formula request: a known formula name, at least one
/// input column, and the formula's own required parameters.
pub open spec fn request_valid(r: AdvancedFormulaRequest) -> bool {
    &&& exists|k: int| names_formula(r.formula_type@, k)
    &&& r.parameters.input_columns@.len() > 0
    &&& (eq_ignore_ascii_case(r.formula_type@, "SUMIFS"@) ==> {
        &&& r.parameters.criteria_columns is Some
        &&& r.parameters.criteria_values is Some
        &&& r.parameters.criteria_columns->0@.len() == r.parameters.criteria_values->0@.len()
    })
    &&& (eq_ignore_ascii_case(r.formula_type@, "PIVOT"@)
        ==> r.parameters.input_columns@.len() >= 2)
    &&& (eq_ignore_ascii_case(r.formula_type@, "VLOOKUP"@) ==> {
        &&& r.parameters.lookup_table is Some
        &&& r.parameters.lookup_key is Some
        &&& r.parameters.return_column is Some
    })
}

/// The catalog of formulas the service evaluates.
pub struct AdvancedFormulaProcessor {
    supported_formulas: Vec<FormulaInfo>,
}

impl AdvancedFormulaProcessor {
    /// The catalog holds the four formulas under their names, in
    /// registration order.
    pub closed spec fn wf(&self) -> bool {
        &&& self.supported_formulas@.len() == formula_names().len()
        &&& forall|k: int|
            0 <= k < formula_names().len() ==> (#[trigger] self.supported_formulas@[k]).name@
                == formula_names()[k]
    }

    /// A catalog of the four built-in formulas.
    pub fn new() -> (r: Self)
        ensures
            r.wf(),
    {
        let mut supported_formulas: Vec<FormulaInfo> = Vec::new();
        supported_formulas.push(
            FormulaInfo {
                name: "SUMIFS".to_owned(),
                description: "Sums values based on multiple criteria conditions".to_owned(),
                complexity: "Advanced".to_owned(),
                required_params: three_strings("sum_range", "criteria_ranges", "criteria_values"),
                optional_params: two_strings("group_by", "output_format"),
                examples: three_strings(
                    "Sum sales where Region = 'North' AND Product = 'Electronics'",
                    "Sum revenue where Status = 'Completed' AND Date >= '2024-01-01'",
                    "Sum amounts by Department AND Month",
                ),
            },
        );
        supported_formulas.push(
            FormulaInfo {
                name: "PIVOT".to_owned(),
                description: "Creates summary tables with aggregations".to_owned(),
                complexity: "Advanced".to_owned(),
                required_params: two_strings("index_columns", "value_columns"),
                optional_params: three_strings("aggregation_type", "fill_value", "sort_by"),
                examples: three_strings(
                    "Pivot sales by Region and Product with SUM aggregation",
                    "Pivot revenue by Department and Month with AVERAGE aggregation",
                    "Pivot counts by Status and Category",
                ),
            },
        );
        supported_formulas.push(
            FormulaInfo {
                name: "TEXT_JOIN".to_owned(),
                description: "Combines multiple text columns with custom separators".to_owned(),
                complexity: "Intermediate".to_owned(),
                required_params: one_string("text_columns"),
                optional_params: three_strings("separator", "ignore_empty", "case_sensitive"),
                examples: three_strings(
                    "Join First Name + Last Name with space separator",
                    "Join Address components with comma separator",
                    "Join multiple tags with pipe separator",
                ),
            },
        );
        supported_formulas.push(
            FormulaInfo {
                name: "VLOOKUP".to_owned(),
                description: "Finds values in reference tables based on lookup keys".to_owned(),
                complexity: "Advanced".to_owned(),
                required_params: three_strings("lookup_value", "lookup_table", "return_column"),
                optional_params: three_strings("match_type", "error_handling", "default_value"),
                examples: three_strings(
                    "Find product name using product ID",
                    "Find customer region using customer ID",
                    "Find employee department using employee ID",
                ),
            },
        );
        AdvancedFormulaProcessor { supported_formulas }
    }

    /// The catalog's formulas, in registration order.
    pub fn get_supported_formulas(&self) -> (r: &Vec<FormulaInfo>)
        requires
            self.wf(),
        ensures
            r@.len() == formula_names().len(),
            forall|k: int|
                0 <= k < r@.len() ==> (#[trigger] r@[k]).name@ == formula_names()[k],
    {
        &self.supported_formulas
    }

    /// The formula under a name, up to ASCII case, if the catalog has
    /// it.
    pub fn get_formula_info(&self, formula_name: &str) -> (r: Option<&FormulaInfo>)
        requires
            self.wf(),
        ensures
            match r {
                Some(info) => exists|k: int|
                    names_formula(formula_name@, k) && info.name@ == formula_names()[k],
                None => forall|k: int| !names_formula(formula_name@, k),
            },
    {
        let mut k: usize = 0;
        while k < self.supported_formulas.len()
            invariant
                self.wf(),
                self.supported_formulas@.len() == formula_names().len(),
                0 <= k <= formula_names().len(),
                forall|j: int| 0 <= j < k ==> !names_formula(formula_name@, j),
            decreases formula_names().len() - k,
        {
            if str_eq_ignore_ascii_case(formula_name, self.supported_formulas[k].name.as_str()) {
                return Some(&self.supported_formulas[k]);
            }
            k += 1;
        }
        None
    }

    /// Check a formula request: a known formula, at least one input
    /// column, and the formula's required parameters.
    pub fn validate_formula_request(&self, request: &AdvancedFormulaRequest) -> (r: Result<
        (),
        String,
    >)
        requires
            self.wf(),
        ensures
            r is Ok <==> request_valid(*request),
    {
        if self.get_formula_info(request.formula_type.as_str()).is_none() {
            let mut m = "Unsupported formula: ".to_owned();
            m.append(request.formula_type.as_str());
            return Err(m);
        }
        if request.parameters.input_columns.len() == 0 {
            return Err("At least one input column is required".to_owned());
        }
        if str_eq_ignore_ascii_case(request.formula_type.as_str(), "SUMIFS") {
            let cc = match &request.parameters.criteria_columns {
                Some(cc) => cc,
                None => {
                    return Err("SUMIFS requires criteria_columns and criteria_values".to_owned());
                },
            };
            let cv = match &request.parameters.criteria_values {
                Some(cv) => cv,
                None => {
                    return Err("SUMIFS requires criteria_columns and criteria_values".to_owned());
                },
            };
            if cc.len() != cv.len() {
                return Err("Criteria columns and values must have the same length".to_owned());
            }
        }
        if str_eq_ignore_ascii_case(request.formula_type.as_str(), "PIVOT") {
            if request.parameters.input_columns.len() < 2 {
                return Err(
                    "PIVOT requires at least 2 input columns (index and value columns)".to_owned(),
                );
            }
        }
        if str_eq_ignore_ascii_case(request.formula_type.as_str(), "VLOOKUP") {
            if request.parameters.lookup_table.is_none() || request.parameters.lookup_key.is_none()
                || request.parameters.return_column.is_none() {
                return Err(
                    "VLOOKUP requires lookup_table, lookup_key, and return_column".to_owned(),
                );
            }
        }
        Ok(())
    }
}

/// One owned string.
fn one_string(a: &str) -> (r: Vec<String>)
    ensures
        r@.len() == 1,
        r@[0]@ == a@,
{
    let mut v: Vec<String> = Vec::new();
    v.push(a.to_owned());
    v
}

/// Two owned strings.
fn two_strings(a: &str, b: &str) -> (r: Vec<String>)
    ensures
        r@.len() == 2,
        r@[0]@ == a@,
        r@[1]@ == b@,
{
    let mut v: Vec<String> = Vec::new();
    v.push(a.to_owned());
    v.push(b.to_owned());
    v
}

/// Three owned strings.
fn three_strings(a: &str, b: &str, c: &str) -> (r: Vec<String>)
    ensures
        r@.len() == 3,
        r@[0]@ == a@,
        r@[1]@ == b@,
        r@[2]@ == c@,
{
    let mut v: Vec<String> = Vec::new();
    v.push(a.to_owned());
    v.push(b.to_owned());
    v.push(c.to_owned());
    v
}

} // verus!
