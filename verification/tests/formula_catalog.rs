//! The formula catalog and formula request validation.

use workflow_engine::formulas::AdvancedFormulaProcessor;
use workflow_engine::formulas::AdvancedFormulaRequest;
use workflow_engine::formulas::FormulaParameters;
use workflow_engine::formulas::OutputConfig;
use workflow_engine::value::Value;

fn bare_parameters() -> FormulaParameters {
    FormulaParameters {
        input_columns: vec!["amount".to_string()],
        criteria_columns: None,
        criteria_values: None,
        separator: None,
        aggregation_type: None,
        lookup_table: None,
        lookup_key: None,
        return_column: None,
        optional_params: vec![],
    }
}

fn request(formula: &str, parameters: FormulaParameters) -> AdvancedFormulaRequest {
    AdvancedFormulaRequest {
        formula_type: formula.to_string(),
        data: vec![],
        parameters,
        output_config: OutputConfig {
            output_column: "out".to_string(),
            include_metadata: false,
            sample_size: None,
        },
    }
}

#[test]
fn catalog_lists_the_four_formulas() {
    let processor = AdvancedFormulaProcessor::new();
    let names: Vec<&str> = processor
        .get_supported_formulas()
        .iter()
        .map(|info| info.name.as_str())
        .collect();
    assert_eq!(names, vec!["SUMIFS", "PIVOT", "TEXT_JOIN", "VLOOKUP"]);
}

#[test]
fn formula_lookup_ignores_ascii_case() {
    let processor = AdvancedFormulaProcessor::new();
    assert_eq!(processor.get_formula_info("sumifs").unwrap().name, "SUMIFS");
    assert_eq!(processor.get_formula_info("Vlookup").unwrap().name, "VLOOKUP");
    assert!(processor.get_formula_info("MEDIAN").is_none());
}

#[test]
fn unsupported_formula_is_rejected() {
    let processor = AdvancedFormulaProcessor::new();
    let r = processor.validate_formula_request(&request("MEDIAN", bare_parameters()));
    assert!(r.is_err());
}

#[test]
fn input_columns_are_required() {
    let processor = AdvancedFormulaProcessor::new();
    let mut parameters = bare_parameters();
    parameters.input_columns = vec![];
    let r = processor.validate_formula_request(&request("TEXT_JOIN", parameters));
    assert!(r.is_err());
    let r = processor.validate_formula_request(&request("text_join", bare_parameters()));
    assert!(r.is_ok());
}

#[test]
fn sumifs_requires_matching_criteria() {
    let processor = AdvancedFormulaProcessor::new();
    assert!(processor
        .validate_formula_request(&request("SUMIFS", bare_parameters()))
        .is_err());

    let mut mismatched = bare_parameters();
    mismatched.criteria_columns = Some(vec!["region".to_string()]);
    mismatched.criteria_values = Some(vec![]);
    assert!(processor
        .validate_formula_request(&request("SUMIFS", mismatched))
        .is_err());

    let mut matched = bare_parameters();
    matched.criteria_columns = Some(vec!["region".to_string()]);
    matched.criteria_values = Some(vec![Value::Text("North".to_string())]);
    assert!(processor
        .validate_formula_request(&request("SUMIFS", matched))
        .is_ok());
}

#[test]
fn pivot_requires_two_input_columns() {
    let processor = AdvancedFormulaProcessor::new();
    assert!(processor
        .validate_formula_request(&request("PIVOT", bare_parameters()))
        .is_err());
    let mut two = bare_parameters();
    two.input_columns = vec!["region".to_string(), "amount".to_string()];
    assert!(processor.validate_formula_request(&request("PIVOT", two)).is_ok());
}

#[test]
fn vlookup_requires_its_table_key_and_column() {
    let processor = AdvancedFormulaProcessor::new();
    assert!(processor
        .validate_formula_request(&request("VLOOKUP", bare_parameters()))
        .is_err());
    let mut complete = bare_parameters();
    complete.lookup_table = Some(vec![]);
    complete.lookup_key = Some("id".to_string());
    complete.return_column = Some("name".to_string());
    assert!(processor
        .validate_formula_request(&request("VLOOKUP", complete))
        .is_ok());
}
