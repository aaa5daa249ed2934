//! Discovery, reading and writing of openGear parameters over binary OGP.

pub mod bytes;
pub mod catalog;
pub mod cli;
pub mod client;
pub mod csv_output;
pub mod decimal;
pub mod laws;
pub mod model;
pub mod number;
pub mod protocol;
pub mod table;
pub mod text;
pub mod value;
pub mod views;

pub use catalog::{
    CatalogError, DeviceCatalog, Menu, MenuGroup, MenuGroupIdentity, MenuIdentity, MenuPath,
    ParameterCandidate, ResolveError,
};
pub use client::{ClientError, ReadResult, Slot, WriteResult};
pub use model::{
    label_eq, Access, ActiveAlarm, AlarmDefinition, AlarmDisplay, Choice, Constraint,
    DisplayNumber, DisplayValue, KnownWidget, Parameter, ParameterIdentity, ParameterOid,
    ParameterRole, ParameterSelector, ParameterType, ParameterValue, ParseOidError,
    ParseSelectorError, SetSemantics, Widget, SCHEMA_VERSION,
};
pub use number::{Float32, Float64};
