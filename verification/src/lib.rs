//! Host requirements for job submission: the panel model that the UI edits, the
//! encoding of its custom entries, validation of custom names, and serialization to the
//! job template's `hostRequirements` JSON.
pub mod host_requirements;
pub mod host_requirements_model;
pub mod json;
pub mod model_state;
pub mod text;

pub use host_requirements::{
    CustomAmountRequirement, CustomAttributeRequirement, HardwareRequirements, HostRequirements,
    OsRequirements,
};
pub use host_requirements_model::{HostRequirementsModel, HostRequirementsModelRust};
pub use json::{JsonMember, JsonValue};
pub use model_state::{
    parse_custom_amounts, parse_custom_attributes, serialize_from_model_state,
    validate_custom_name, HostRequirementsModelState,
};
