//! Declarations of the outside types that the crate carries opaquely.
use vstd::prelude::*;

verus! {

/// The error type of `std::io`, carried opaquely. Nothing is assumed about
/// its values.
#[verifier::external_type_specification]
#[verifier::external_body]
pub struct ExIoError(std::io::Error);

/// The error type of `serde_yaml_ng`, carried opaquely. Nothing is assumed
/// about its values.
#[verifier::external_type_specification]
#[verifier::external_body]
pub struct ExYamlError(serde_yaml_ng::Error);

/// The YAML value type of `serde_yaml_ng`, carried opaquely through the
/// document merge: values are moved and compared, never inspected.
#[verifier::external_type_specification]
#[verifier::external_body]
pub struct ExValue(serde_yaml_ng::Value);

/// The YAML mapping type of `serde_yaml_ng`: an insertion-ordered map from
/// values to values.
#[verifier::external_type_specification]
#[verifier::external_body]
pub struct ExMapping(serde_yaml_ng::Mapping);

} // verus!
