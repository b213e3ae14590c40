//! The entry points: compiling a schema, and validating a value against one.

use vstd::prelude::*;
use crate::engine::{
    cbor_outcome, engine_flatten, engine_validate_cbor, engine_validate_json, flatten_view, flattened,
    json_outcome, missing_rule_text, schema_productive, verdict_view,
};
use crate::error::{err_adapter, Error, ErrorView};
use crate::node::{Ivt, IvtView};
use crate::rules::{entries_view, lemma_sorted_entries_are_fixed, map_of, names_rule, sorted_by_name, CDDLRules};

verus! {

/// What a caller is told of a validation: nothing where the engine accepted,
/// a validation failure with the engine's description where it refused.
pub open spec fn validation_of(verdict: Result<(), Seq<char>>) -> Result<(), ErrorView> {
    match verdict {
        Ok(_) => Ok(()),
        Err(description) => Err(ErrorView::ValidationFailure(description)),
    }
}

/// What a caller is given for a compilation: the mapping of the rules where
/// the engine compiled the schema, a compile failure with the engine's
/// description where it refused.
pub open spec fn compilation_of(flat: Result<Seq<(Seq<char>, IvtView)>, Seq<char>>) -> Result<
    Map<Seq<char>, IvtView>,
    ErrorView,
> {
    match flat {
        Ok(entries) => Ok(map_of(entries)),
        Err(description) => Err(ErrorView::CompileFailure(description)),
    }
}

/// Whether a result of a validation is the expected one.
pub open spec fn validation_is(result: Result<(), Error>, expected: Result<(), ErrorView>) -> bool {
    match expected {
        Ok(_) => result is Ok,
        Err(failure) => result matches Err(e) && e@ == failure,
    }
}

/// Whether a result of a compilation is the expected one. A rule
/// set that is handed out is whole: it maps every rule, and holds them in the
/// order of their names.
pub open spec fn compilation_is(result: Result<CDDLRules, Error>, expected: Result<Map<Seq<char>, IvtView>, ErrorView>) -> bool {
    match expected {
        Ok(mapping) => result matches Ok(rules) && rules@ == mapping && rules@ == map_of(rules.entries())
            && sorted_by_name(rules.entries()),
        Err(failure) => result matches Err(e) && e@ == failure,
    }
}

/// Turns the engine's verdict on a value into the result of a validation.
pub fn validation_result(outcome: Result<(), String>) -> (result: Result<(), Error>)
    ensures
        validation_is(result, validation_of(verdict_view(outcome))),
{
    match outcome {
        Ok(_) => Ok(()),
        Err(description) => Err(Error::ValidationFailure(err_adapter(description))),
    }
}

/// Turns what the engine made of a schema into the result of a compilation:
/// the rule set of the rules that it gave, or the failure. Rules that are
/// given with names that strictly increase are held as they are given.
pub fn compile_result(outcome: Result<Vec<(String, Ivt)>, String>) -> (result: Result<CDDLRules, Error>)
    ensures
        compilation_is(result, compilation_of(flatten_view(outcome))),
        flatten_view(outcome) matches Ok(given) ==> (sorted_by_name(given) ==> (result matches Ok(rules)
            && rules.entries() == given)),
{
    match outcome {
        Ok(entries) => {
            let ghost given = entries_view(entries@);
            let rules = CDDLRules::from_entries(entries);
            proof {
                if sorted_by_name(given) {
                    lemma_sorted_entries_are_fixed(rules.entries(), given);
                }
            }
            Ok(rules)
        },
        Err(description) => Err(Error::CompileFailure(err_adapter(description))),
    }
}

/// Validates a CBOR-encoded value against the rule `typename` of the schema
/// `cddl`. The call succeeds where the engine accepts the value. It fails
/// with `ValidationFailure`, and the engine's description, where the schema
/// does not compile, where it has no rule of that name, where the bytes do
/// not decode, and where the value does not match. The rules that the
/// validation can reach must be productive; [`try_validate_cbor_bytes`] finds
/// that out by itself.
pub fn validate_cbor_bytes(typename: &str, cddl: &str, cbor: &[u8]) -> (result: Result<(), Error>)
    requires
        schema_productive(typename@, cddl@),
    ensures
        validation_is(result, validation_of(cbor_outcome(typename@, cddl@, cbor@))),
        flattened(cddl@) matches Err(description) ==> validation_is(
            result,
            Err(ErrorView::ValidationFailure(description)),
        ),
        flattened(cddl@) matches Ok(entries) && !names_rule(entries, typename@) ==> validation_is(
            result,
            Err(ErrorView::ValidationFailure(missing_rule_text(typename@))),
        ),
{
    validation_result(engine_validate_cbor(typename, cddl, cbor))
}

/// Validates a JSON text against the rule `typename` of the schema `cddl`.
/// The call succeeds where the engine accepts the value. It fails with
/// `ValidationFailure`, and the engine's description, where the schema does
/// not compile, where it has no rule of that name, where the text does not
/// decode, and where the value does not match. The rules that the validation
/// can reach must be productive; [`try_validate_json_str`] finds that out by
/// itself.
pub fn validate_json_str(typename: &str, cddl: &str, json: &str) -> (result: Result<(), Error>)
    requires
        schema_productive(typename@, cddl@),
    ensures
        validation_is(result, validation_of(json_outcome(typename@, cddl@, json@))),
        flattened(cddl@) matches Err(description) ==> validation_is(
            result,
            Err(ErrorView::ValidationFailure(description)),
        ),
        flattened(cddl@) matches Ok(entries) && !names_rule(entries, typename@) ==> validation_is(
            result,
            Err(ErrorView::ValidationFailure(missing_rule_text(typename@))),
        ),
{
    validation_result(engine_validate_json(typename, cddl, json))
}

/// Whether a schema does not compile, or has rules that are productive for a
/// validation that starts at `typename`, found out by compiling it and
/// looking at its rules.
pub fn is_schema_productive(typename: &str, cddl: &str) -> (ok: bool)
    ensures
        ok == schema_productive(typename@, cddl@),
{
    match flatten_from_str(cddl) {
        Ok(rules) => rules.is_productive_for(typename),
        Err(_) => true,
    }
}

/// Validates a CBOR-encoded value against the rule `typename` of the schema
/// `cddl`, where the rules that the validation can reach are productive, and
/// gives what [`validate_cbor_bytes`] gives. Where they are not, the engine
/// is not called, and there is no result.
pub fn try_validate_cbor_bytes(typename: &str, cddl: &str, cbor: &[u8]) -> (result: Option<Result<(), Error>>)
    ensures
        (match result {
            Some(validated) => schema_productive(typename@, cddl@) && validation_is(
                validated,
                validation_of(cbor_outcome(typename@, cddl@, cbor@)),
            ),
            None => !schema_productive(typename@, cddl@),
        }),
        flattened(cddl@) matches Err(description) ==> result matches Some(validated) && validation_is(
            validated,
            Err(ErrorView::ValidationFailure(description)),
        ),
        flattened(cddl@) matches Ok(entries) && !names_rule(entries, typename@) ==> (result matches Some(
            validated,
        ) ==> validation_is(validated, Err(ErrorView::ValidationFailure(missing_rule_text(typename@))))),
{
    if is_schema_productive(typename, cddl) {
        Some(validate_cbor_bytes(typename, cddl, cbor))
    } else {
        None
    }
}

/// Validates a JSON text against the rule `typename` of the schema `cddl`,
/// where the rules that the validation can reach are productive, and gives
/// what [`validate_json_str`] gives. Where they are not, the engine is not
/// called, and there is no result.
pub fn try_validate_json_str(typename: &str, cddl: &str, json: &str) -> (result: Option<Result<(), Error>>)
    ensures
        (match result {
            Some(validated) => schema_productive(typename@, cddl@) && validation_is(
                validated,
                validation_of(json_outcome(typename@, cddl@, json@)),
            ),
            None => !schema_productive(typename@, cddl@),
        }),
        flattened(cddl@) matches Err(description) ==> result matches Some(validated) && validation_is(
            validated,
            Err(ErrorView::ValidationFailure(description)),
        ),
        flattened(cddl@) matches Ok(entries) && !names_rule(entries, typename@) ==> (result matches Some(
            validated,
        ) ==> validation_is(validated, Err(ErrorView::ValidationFailure(missing_rule_text(typename@))))),
{
    if is_schema_productive(typename, cddl) {
        Some(validate_json_str(typename, cddl, json))
    } else {
        None
    }
}

/// Compiles a schema text into its rule set. The call fails with
/// `CompileFailure`, and the engine's description, where the engine refuses
/// the text; it then hands out no rule set at all.
pub fn flatten_from_str(cddl: &str) -> (result: Result<CDDLRules, Error>)
    ensures
        compilation_is(result, compilation_of(flattened(cddl@))),
        flattened(cddl@) matches Ok(entries) ==> (result matches Ok(rules) && rules.entries() == entries),
{
    compile_result(engine_flatten(cddl))
}

} // verus!
