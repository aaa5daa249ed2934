//! One parameter of a device: its descriptor, and the external object that its constraint may be
//! in.

use super::error::{answered, unusable, ClientError, ClientErrorView};
use super::exchange::{Ask, AskView, Correlation, CorrelationView, ATTEMPTS};
use crate::bytes::{be16, be16_bytes, push_bytes, read16, tail_of};
use crate::model::{Constraint, ConstraintView, OidView, Parameter, ParameterOid, ParameterView};
use crate::protocol::constraint::{external_constraint, parsed_constraint, parsed_external};
use crate::protocol::descriptor::{
    parameter_of, parsed_descriptor, type_of, DescriptorView, RawDescriptor,
};
use crate::protocol::error::ProtocolErrorView;
use crate::protocol::frame::{Frame, FrameView};
use crate::protocol::request::{
    descriptor_request, external_object_request, oid_request, request_of, GET_DESCRIPTOR,
    GET_EXTERNAL_OBJECT, GET_STRING_DESCRIPTOR,
};
use crate::protocol::response::{parsed_fragment, ExternalObjectFragment};
use crate::views::{option_view, result_view};
use std::collections::{HashMap, HashSet};
use vstd::prelude::*;

verus! {

/// How many bytes an external object may have.
pub const MAX_EXTERNAL_OBJECT_SIZE: usize = 1024 * 1024;

/// How many fragments an external object may come in.
pub const MAX_EXTERNAL_FRAGMENTS: usize = 4096;

/// What a conversation has come to: another request is due, or all is known.
#[derive(Debug)]
pub enum Progress<S, T> {
    More(S),
    Done(T),
}

impl<S: View, T: View> View for Progress<S, T> {
    type V = Progress<S::V, T::V>;

    open spec fn view(&self) -> Progress<S::V, T::V> {
        match *self {
            Progress::More(state) => Progress::More(state@),
            Progress::Done(value) => Progress::Done(value@),
        }
    }
}

/// An external object, as far as it is known.
#[derive(Debug)]
pub struct ExternalObject {
    object_id: u16,
    requested: u16,
    seen: HashSet<u16>,
    bytes: Vec<u8>,
}

/// The value of an `ExternalObject`: its number, the fragment that is asked for next, those that
/// were asked for before, and the bytes so far.
pub struct ExternalObjectView {
    pub object_id: u16,
    pub requested: u16,
    pub seen: Set<u16>,
    pub bytes: Seq<u8>,
}

impl View for ExternalObject {
    type V = ExternalObjectView;

    closed spec fn view(&self) -> ExternalObjectView {
        ExternalObjectView {
            object_id: self.object_id,
            requested: self.requested,
            seen: self.seen@,
            bytes: self.bytes@,
        }
    }
}

/// An external object of which nothing is known.
pub open spec fn new_object(object_id: u16) -> ExternalObjectView {
    ExternalObjectView { object_id, requested: 0, seen: Set::empty(), bytes: seq![] }
}

/// What stops the fragments of an object: too many of them, or one that comes again.
pub open spec fn object_stop(object: ExternalObjectView) -> Option<ClientErrorView> {
    if object.seen.len() >= MAX_EXTERNAL_FRAGMENTS {
        Some(
            ClientErrorView::InvalidDiscovery("external object exceeds the fragment safety limit"@),
        )
    } else if object.seen.contains(object.requested) {
        Some(ClientErrorView::InvalidDiscovery("external object contains a fragment loop"@))
    } else {
        None
    }
}

/// The request for the next fragment.
pub open spec fn object_ask(object: ExternalObjectView, address: u8) -> Result<
    AskView,
    ClientErrorView,
> {
    match object_stop(object) {
        Some(error) => Err(error),
        None => Ok(
            AskView {
                request: request_of(
                    address,
                    GET_EXTERNAL_OBJECT,
                    seq![0u8] + be16_bytes(object.object_id) + be16_bytes(object.requested),
                ),
                attempts: ATTEMPTS,
                correlation: CorrelationView::ExternalObject {
                    oid: object.object_id,
                    fragment: object.requested,
                },
            },
        ),
    }
}

/// The object with another fragment. It is complete where no fragment follows, or where it is
/// clear that it is no constraint.
pub open spec fn object_reply(object: ExternalObjectView, content: Seq<u8>) -> Result<
    Progress<ExternalObjectView, Seq<u8>>,
    ClientErrorView,
> {
    match object_stop(object) {
        Some(error) => Err(error),
        None => match answered(parsed_fragment(content)) {
            Err(error) => Err(error),
            Ok(fragment) => {
                let bytes = object.bytes + fragment.data;
                if fragment.oid != object.object_id || fragment.fragment != object.requested {
                    unusable("external object response does not match its request"@)
                } else if bytes.len() > MAX_EXTERNAL_OBJECT_SIZE {
                    unusable("external object exceeds the 1 MiB safety limit"@)
                } else if (bytes.len() >= 2 && be16(bytes, 0) != 1) || fragment.next == 0 {
                    Ok(Progress::Done(bytes))
                } else {
                    Ok(
                        Progress::More(
                            ExternalObjectView {
                                object_id: object.object_id,
                                requested: fragment.next,
                                seen: object.seen.insert(object.requested),
                                bytes,
                            },
                        ),
                    )
                }
            },
        },
    }
}

impl ExternalObject {
    #[verifier::type_invariant]
    spec fn within_limits(self) -> bool {
        &&& self.bytes@.len() <= MAX_EXTERNAL_OBJECT_SIZE
        &&& self.seen@.finite()
        &&& self.seen@.len() <= MAX_EXTERNAL_FRAGMENTS
    }

    pub fn new(object_id: u16) -> (r: Self)
        ensures
            r@ == new_object(object_id),
    {
        let r = ExternalObject { object_id, requested: 0, seen: HashSet::new(), bytes: Vec::new() };
        assert(r@.bytes =~= seq![]);
        r
    }

    fn stop(&self) -> (r: Option<ClientError>)
        ensures
            option_view(r) == object_stop(self@),
    {
        broadcast use vstd::std_specs::hash::group_hash_axioms;

        if self.seen.len() >= MAX_EXTERNAL_FRAGMENTS {
            return Some(
                ClientError::InvalidDiscovery("external object exceeds the fragment safety limit"),
            );
        }
        if self.seen.contains(&self.requested) {
            return Some(ClientError::InvalidDiscovery("external object contains a fragment loop"));
        }
        None
    }

    /// The next request.
    pub fn ask(&self, address: u8) -> (r: Result<Ask, ClientError>)
        ensures
            result_view(r) == object_ask(self@, address),
    {
        match self.stop() {
            Some(error) => Err(error),
            None => Ok(
                Ask {
                    request: external_object_request(address, self.object_id, self.requested),
                    attempts: ATTEMPTS,
                    correlation: Correlation::ExternalObject {
                        oid: self.object_id,
                        fragment: self.requested,
                    },
                },
            ),
        }
    }

    /// Takes a fragment.
    pub fn reply(self, frame: &Frame) -> (r: Result<Progress<ExternalObject, Vec<u8>>, ClientError>)
        ensures
            result_view(r) == object_reply(self@, frame@.content),
    {
        broadcast use vstd::std_specs::hash::group_hash_axioms;

        proof {
            use_type_invariant(&self);
        }
        if let Some(error) = self.stop() {
            return Err(error);
        }
        let fragment = match ExternalObjectFragment::parse(frame) {
            Ok(fragment) => fragment,
            Err(error) => return Err(ClientError::from_protocol(error)),
        };
        if fragment.oid != self.object_id || fragment.fragment != self.requested {
            return Err(
                ClientError::InvalidDiscovery("external object response does not match its request"),
            );
        }
        if fragment.data.len() > MAX_EXTERNAL_OBJECT_SIZE - self.bytes.len() {
            return Err(
                ClientError::InvalidDiscovery("external object exceeds the 1 MiB safety limit"),
            );
        }
        let object_id: u16 = self.object_id;
        let requested: u16 = self.requested;
        let mut bytes: Vec<u8> = tail_of(&self.bytes, 0);
        assert(bytes@ =~= self@.bytes);
        push_bytes(&mut bytes, &fragment.data);
        if bytes.len() >= 2 && read16(&bytes, 0) != 1 {
            return Ok(Progress::Done(bytes));
        }
        if fragment.next == 0 {
            return Ok(Progress::Done(bytes));
        }
        let mut seen = self.seen;
        seen.insert(requested);
        Ok(Progress::More(ExternalObject { object_id, requested: fragment.next, seen, bytes }))
    }
}

/// The external objects that are known, by their numbers.
#[derive(Debug)]
pub struct ExternalObjects {
    objects: HashMap<u16, Vec<u8>>,
}

impl View for ExternalObjects {
    type V = Map<u16, Seq<u8>>;

    closed spec fn view(&self) -> Map<u16, Seq<u8>> {
        self.objects@.map_values(|bytes: Vec<u8>| bytes@)
    }
}

impl ExternalObjects {
    pub fn new() -> (r: Self)
        ensures
            r@ == Map::<u16, Seq<u8>>::empty(),
    {
        let r = ExternalObjects { objects: HashMap::new() };
        assert(r@ =~= Map::<u16, Seq<u8>>::empty());
        r
    }

    fn get(&self, object_id: u16) -> (r: Option<&Vec<u8>>)
        ensures
            match r {
                Some(bytes) => self@.contains_key(object_id) && self@[object_id] == bytes@,
                None => !self@.contains_key(object_id),
            },
    {
        broadcast use vstd::std_specs::hash::group_hash_axioms;

        self.objects.get(&object_id)
    }

    fn insert(&mut self, object_id: u16, bytes: Vec<u8>)
        ensures
            final(self)@ == old(self)@.insert(object_id, bytes@),
    {
        broadcast use vstd::std_specs::hash::group_hash_axioms;

        self.objects.insert(object_id, bytes);
        assert(self@ =~= old(self)@.insert(object_id, bytes@));
    }
}

/// A parameter that is asked for: first its descriptor, then the object with its constraint.
#[derive(Debug)]
pub enum Fetch {
    Descriptor(ParameterOid),
    Object { descriptor: RawDescriptor, object_id: u16, object: ExternalObject },
}

/// The value of a `Fetch`.
pub enum FetchView {
    Descriptor(OidView),
    Object { descriptor: DescriptorView, object_id: u16, object: ExternalObjectView },
}

impl View for Fetch {
    type V = FetchView;

    open spec fn view(&self) -> FetchView {
        match *self {
            Fetch::Descriptor(oid) => FetchView::Descriptor(oid@),
            Fetch::Object { descriptor, object_id, object } => FetchView::Object {
                descriptor: descriptor@,
                object_id,
                object: object@,
            },
        }
    }
}

/// A result whose error is one of the protocol.
pub open spec fn protocol<T>(result: Result<T, ProtocolErrorView>) -> Result<T, ClientErrorView> {
    match result {
        Ok(value) => Ok(value),
        Err(error) => Err(ClientErrorView::Protocol(error)),
    }
}

/// The request about one parameter, sent as often as `attempts`.
pub open spec fn parameter_ask(
    request: Result<FrameView, ProtocolErrorView>,
    attempts: usize,
    oid: OidView,
) -> Result<AskView, ClientErrorView> {
    match protocol(request) {
        Err(error) => Err(error),
        Ok(request) => Ok(
            AskView { request, attempts, correlation: CorrelationView::Parameter(oid) },
        ),
    }
}

/// The next request.
pub open spec fn fetch_ask(fetch: FetchView, address: u8) -> Result<AskView, ClientErrorView> {
    match fetch {
        FetchView::Descriptor(oid) => parameter_ask(
            oid_request(address, oid, GET_DESCRIPTOR, GET_STRING_DESCRIPTOR),
            ATTEMPTS,
            oid,
        ),
        FetchView::Object { object, .. } => object_ask(object, address),
    }
}

/// The parameter whose constraint is in an external object.
pub open spec fn external_parameter(
    descriptor: DescriptorView,
    object_id: u16,
    bytes: Seq<u8>,
) -> Result<ParameterView, ClientErrorView> {
    match protocol(parsed_external(bytes, type_of(descriptor))) {
        Err(error) => Err(error),
        Ok(resolved) => answered(
            parameter_of(
                descriptor,
                ConstraintView::External { object_id, resolved: Box::new(resolved) },
            ),
        ),
    }
}

/// What a response brings: the parameter, or that an external object is missing. `objects` are the
/// objects that are known.
pub open spec fn fetch_reply(
    fetch: FetchView,
    objects: Map<u16, Seq<u8>>,
    content: Seq<u8>,
) -> Result<Progress<FetchView, ParameterView>, ClientErrorView> {
    match fetch {
        FetchView::Descriptor(oid) => match answered(parsed_descriptor(content, oid)) {
            Err(error) => Err(error),
            Ok(descriptor) => match protocol(
                parsed_constraint(
                    descriptor.constraint_type,
                    descriptor.constraint_data,
                    type_of(descriptor),
                ),
            ) {
                Err(error) => Err(error),
                Ok(ConstraintView::External { object_id, .. }) => if objects.contains_key(
                    object_id,
                ) {
                    fetched(external_parameter(descriptor, object_id, objects[object_id]))
                } else {
                    Ok(
                        Progress::More(
                            FetchView::Object {
                                descriptor,
                                object_id,
                                object: new_object(object_id),
                            },
                        ),
                    )
                },
                Ok(constraint) => fetched(answered(parameter_of(descriptor, constraint))),
            },
        },
        FetchView::Object { descriptor, object_id, object } => match object_reply(
            object,
            content,
        ) {
            Err(error) => Err(error),
            Ok(Progress::More(object)) => Ok(
                Progress::More(FetchView::Object { descriptor, object_id, object }),
            ),
            Ok(Progress::Done(bytes)) => fetched(external_parameter(descriptor, object_id, bytes)),
        },
    }
}

/// A parameter that is known.
pub open spec fn fetched(parameter: Result<ParameterView, ClientErrorView>) -> Result<
    Progress<FetchView, ParameterView>,
    ClientErrorView,
> {
    match parameter {
        Ok(parameter) => Ok(Progress::Done(parameter)),
        Err(error) => Err(error),
    }
}

/// The objects that are known after a response: those from before, and one that is now complete.
pub open spec fn objects_after(
    fetch: FetchView,
    objects: Map<u16, Seq<u8>>,
    content: Seq<u8>,
) -> Map<u16, Seq<u8>> {
    match fetch {
        FetchView::Descriptor(_) => objects,
        FetchView::Object { object_id, object, .. } => match object_reply(object, content) {
            Ok(Progress::Done(bytes)) => objects.insert(object_id, bytes),
            _ => objects,
        },
    }
}

fn finish_external(descriptor: RawDescriptor, object_id: u16, bytes: &Vec<u8>) -> (r: Result<
    Progress<Fetch, Parameter>,
    ClientError,
>)
    ensures
        result_view(r) == fetched(external_parameter(descriptor@, object_id, bytes@)),
{
    let resolved = match external_constraint(bytes, &descriptor.parameter_type()) {
        Ok(resolved) => resolved,
        Err(error) => return Err(ClientError::Protocol(error)),
    };
    let constraint = Constraint::External { object_id, resolved: Box::new(resolved) };
    match descriptor.into_parameter(constraint) {
        Ok(parameter) => Ok(Progress::Done(parameter)),
        Err(error) => Err(ClientError::from_protocol(error)),
    }
}

impl Fetch {
    /// The next request.
    pub fn ask(&self, address: u8) -> (r: Result<Ask, ClientError>)
        ensures
            result_view(r) == fetch_ask(self@, address),
    {
        match self {
            Fetch::Descriptor(oid) => match descriptor_request(address, oid) {
                Ok(request) => Ok(
                    Ask {
                        request,
                        attempts: ATTEMPTS,
                        correlation: Correlation::Parameter(oid.clone()),
                    },
                ),
                Err(error) => Err(ClientError::Protocol(error)),
            },
            Fetch::Object { object, .. } => object.ask(address),
        }
    }

    /// Takes a response.
    pub fn reply(self, objects: &mut ExternalObjects, frame: &Frame) -> (r: Result<
        Progress<Fetch, Parameter>,
        ClientError,
    >)
        ensures
            result_view(r) == fetch_reply(self@, old(objects)@, frame@.content),
            final(objects)@ == objects_after(self@, old(objects)@, frame@.content),
    {
        match self {
            Fetch::Descriptor(oid) => {
                let descriptor = match RawDescriptor::parse(frame, &oid) {
                    Ok(descriptor) => descriptor,
                    Err(error) => return Err(ClientError::from_protocol(error)),
                };
                match descriptor.inline_constraint() {
                    Err(error) => Err(ClientError::Protocol(error)),
                    Ok(Constraint::External { object_id, .. }) => match objects.get(object_id) {
                        Some(bytes) => finish_external(descriptor, object_id, bytes),
                        None => Ok(
                            Progress::More(
                                Fetch::Object {
                                    descriptor,
                                    object_id,
                                    object: ExternalObject::new(object_id),
                                },
                            ),
                        ),
                    },
                    Ok(constraint) => match descriptor.into_parameter(constraint) {
                        Ok(parameter) => Ok(Progress::Done(parameter)),
                        Err(error) => Err(ClientError::from_protocol(error)),
                    },
                }
            },
            Fetch::Object { descriptor, object_id, object } => match object.reply(frame) {
                Err(error) => Err(error),
                Ok(Progress::More(object)) => Ok(
                    Progress::More(Fetch::Object { descriptor, object_id, object }),
                ),
                Ok(Progress::Done(bytes)) => {
                    let r = finish_external(descriptor, object_id, &bytes);
                    objects.insert(object_id, bytes);
                    r
                },
            },
        }
    }
}

} // verus!
