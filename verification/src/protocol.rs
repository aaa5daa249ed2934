//! Binary OGP: frames, requests and responses.

pub mod constraint;
pub mod constraint_layout;
pub mod descriptor;
pub mod error;
pub mod frame;
pub mod items;
pub mod layout;
pub mod request;
pub mod response;

pub use constraint::{external_constraint, parse_constraint};
pub use descriptor::{DescriptorView, RawDescriptor};
pub use error::{ProtocolError, ProtocolErrorView};
pub use frame::{Frame, FrameDecoder, FrameView, HEADER_LEN, MAX_CONTENT_LEN, SYNC};
pub use request::{
    descriptor_request, external_object_request, get_request, handshake_request,
    menu_group_request, menu_request, menu_string_oid_page_request, num_params_request,
    numeric_oid_page_request, set_request, string_oid_page_request, CLIENT_ADDRESS, CONNECTION_OID,
    FRAME_CONTROLLER_ADDRESS, GET_DESCRIPTOR, GET_EXTERNAL_OBJECT, GET_MENUSET_NAME,
    GET_MENU_COUNT, GET_MENU_NAME, GET_MENU_OIDS, GET_MENU_STRING_OIDS, GET_NUMPARAMS, GET_PARAM,
    GET_PARAM_OIDS, GET_STRING, GET_STRING_DESCRIPTOR, GET_STRING_OIDS, REPORT_PARAM,
    REPORT_STRING, RESPONSE_BIT, SET_PARAM, SET_STRING,
};
pub use response::{
    ensure_success, ExternalObjectFragment, FragmentView, HandshakeResponse, MenuCount,
    MenuDescription, MenuDescriptionView, MenuGroupName, MenuGroupNameView, MenuNumericOids,
    MenuNumericOidsView, MenuStringOidPage, MenuStringOidPageView, NumericOidPage,
    NumericOidPageView, ParameterCounts, ParameterResponse, ParameterResponseView, StringOidPage,
    StringOidPageView,
};
