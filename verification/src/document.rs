//! The benchmark document: YAML text that names the benchmark and the size of
//! its inputs.

use crate::config::{config_of_fields, BenchmarkConfig, ConfigError};
use vstd::prelude::*;

verus! {

/// `serde_yaml::Value`, a YAML value of any shape: looked into only through
/// the functions below.
#[verifier::external_type_specification]
#[verifier::external_body]
pub struct ExValue(serde_yaml::Value);

/// `serde_yaml::Error`, why text is no YAML document: never looked into.
#[verifier::external_type_specification]
#[verifier::external_body]
pub struct ExError(serde_yaml::Error);

/// The value that `source` holds as one YAML document, if it is one.
pub uninterp spec fn yaml_document(source: Seq<u8>) -> Option<serde_yaml::Value>;

/// What `value` holds under the text key `key`: the entry of a mapping, and
/// null where `value` is no mapping or has no such entry. Tags are looked
/// through.
pub uninterp spec fn yaml_member(value: serde_yaml::Value, key: Seq<char>) -> serde_yaml::Value;

/// The text of `value`, if `value` is a string. Tags are looked through.
pub uninterp spec fn yaml_text(value: serde_yaml::Value) -> Option<Seq<char>>;

/// The number that `value` is, if `value` is an integer that 64 bits with a
/// sign hold. Tags are looked through.
pub uninterp spec fn yaml_integer(value: serde_yaml::Value) -> Option<i64>;

/// `serde_yaml::from_slice`, read as a `Value`: what it returns depends on the
/// bytes alone; it is `Ok` with the document's value exactly where the bytes
/// are one YAML document.
#[verifier::external_body]
fn parse_document(source: &[u8]) -> (r: Result<serde_yaml::Value, serde_yaml::Error>)
    ensures
        r matches Ok(value) ==> yaml_document(source@) == Some(value),
        r is Err ==> yaml_document(source@) is None,
{
    serde_yaml::from_slice::<serde_yaml::Value>(source)
}

/// Indexing a `Value` by a `&str`: what it returns depends on the value and
/// the key alone. It does not fail: where there is no such entry it gives null.
#[verifier::external_body]
fn member<'a>(value: &'a serde_yaml::Value, key: &str) -> (r: &'a serde_yaml::Value)
    ensures
        *r == yaml_member(*value, key@),
{
    &value[key]
}

/// `Value::as_str`: the text of a string, `None` for any other value.
#[verifier::external_body]
fn as_text<'a>(value: &'a serde_yaml::Value) -> (r: Option<&'a str>)
    ensures
        r matches Some(text) ==> yaml_text(*value) == Some(text@),
        r is None ==> yaml_text(*value) is None,
{
    value.as_str()
}

/// `Value::as_i64`: the number of an integer that fits 64 bits with a sign,
/// `None` for any other value.
#[verifier::external_body]
fn as_integer(value: &serde_yaml::Value) -> (r: Option<i64>)
    ensures
        r == yaml_integer(*value),
{
    value.as_i64()
}

/// The configuration that a document's value makes: its fields `benchmark`,
/// `matrix_size` and `vector_size`, checked.
pub open spec fn config_of_value(value: serde_yaml::Value) -> Result<BenchmarkConfig, ConfigError> {
    config_of_fields(
        yaml_text(yaml_member(value, "benchmark"@)),
        yaml_integer(yaml_member(value, "matrix_size"@)),
        yaml_integer(yaml_member(value, "vector_size"@)),
    )
}

/// The configuration that the text of a benchmark document makes; text that is
/// no YAML document is malformed.
pub open spec fn config_of_source(source: Seq<u8>) -> Result<BenchmarkConfig, ConfigError> {
    match yaml_document(source) {
        None => Err(ConfigError::Malformed),
        Some(value) => config_of_value(value),
    }
}

/// Reads the benchmark's name and the size of its inputs out of a document's
/// value, and checks them.
pub fn benchmark_config_of(value: &serde_yaml::Value) -> (r: Result<BenchmarkConfig, ConfigError>)
    ensures
        r == config_of_value(*value),
{
    let benchmark = as_text(member(value, "benchmark"));
    let matrix_size = as_integer(member(value, "matrix_size"));
    let vector_size = as_integer(member(value, "vector_size"));
    BenchmarkConfig::from_fields(benchmark, matrix_size, vector_size)
}

/// Reads a benchmark document: the name under `benchmark` selects the kernel,
/// and `matrix_size` or `vector_size` gives the size of its inputs.
pub fn parse_benchmark_config(source: &[u8]) -> (r: Result<BenchmarkConfig, ConfigError>)
    ensures
        r == config_of_source(source@),
{
    match parse_document(source) {
        Ok(value) => benchmark_config_of(&value),
        Err(_) => Err(ConfigError::Malformed),
    }
}

} // verus!
