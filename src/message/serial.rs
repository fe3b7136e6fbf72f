//! The serial counter of a connection and the messages it numbers.
use vstd::prelude::*;

use super::{empty_fields, enc_message, message_fits, marshal_message, Fields, FieldsModel, Flags, Header,
    HeaderModel, MessageType, Proxy};
use crate::signature::sig_text;
use crate::strings;
use crate::types::{type_of, Val, Value};

verus! {

/// The serial that follows `s`; zero is passed over.
pub open spec fn next_serial(s: u32) -> u32 {
    if s == u32::MAX {
        1
    } else {
        (s + 1) as u32
    }
}

/// The signature field for a body: none where the body is empty.
pub open spec fn body_signature(body: Val) -> Option<Seq<u8>> {
    if sig_text(type_of(body)).len() == 0 {
        None
    } else {
        Some(sig_text(type_of(body)))
    }
}

pub open spec fn call_header(serial: u32, flags: Flags, proxy: Proxy, member: Seq<u8>, body: Val) -> HeaderModel {
    HeaderModel {
        message_type: MessageType::MethodCall,
        flags: flags.0,
        serial,
        fields: FieldsModel {
            destination: Some(proxy.destination@),
            path: Some(proxy.path@),
            interface: Some(proxy.interface@),
            member: Some(member),
            signature: body_signature(body),
            ..empty_fields()
        },
    }
}

pub open spec fn return_header(serial: u32, call: HeaderModel, body: Val) -> HeaderModel {
    HeaderModel {
        message_type: MessageType::MethodReturn,
        flags: 0,
        serial,
        fields: FieldsModel {
            reply_serial: Some(call.serial),
            destination: call.fields.sender,
            signature: body_signature(body),
            ..empty_fields()
        },
    }
}

pub open spec fn error_header(serial: u32, name: Seq<u8>, call: HeaderModel, body: Val) -> HeaderModel {
    HeaderModel {
        message_type: MessageType::Error,
        flags: 0,
        serial,
        fields: FieldsModel {
            error_name: Some(name),
            reply_serial: Some(call.serial),
            destination: call.fields.sender,
            signature: body_signature(body),
            ..empty_fields()
        },
    }
}

pub open spec fn signal_header(
    serial: u32,
    path: Seq<u8>,
    interface: Seq<u8>,
    member: Seq<u8>,
    body: Val,
) -> HeaderModel {
    HeaderModel {
        message_type: MessageType::Signal,
        flags: 0,
        serial,
        fields: FieldsModel {
            path: Some(path),
            interface: Some(interface),
            member: Some(member),
            signature: body_signature(body),
            ..empty_fields()
        },
    }
}

/// The numbers given to the messages of one connection.
#[derive(Clone, Debug, PartialEq, Eq, PartialOrd, Ord, Hash)]
pub struct Serial(u32);

impl View for Serial {
    type V = u32;

    closed spec fn view(&self) -> u32 {
        self.0
    }
}

impl Serial {
    pub fn from_raw(value: u32) -> (r: Self)
        ensures
            r@ == value,
    {
        Serial(value)
    }

    pub fn new() -> (r: Self)
        ensures
            r@ == 0,
    {
        Serial(0)
    }

    /// Moves to the next serial and gives it; never zero.
    pub fn next(&mut self) -> (r: u32)
        ensures
            r == next_serial(old(self)@),
            final(self)@ == r,
            r != 0,
    {
        if self.0 == u32::MAX {
            self.0 = 1;
        } else {
            self.0 = self.0 + 1;
        }
        self.0
    }

    /// A method call to `member` of `proxy` with the arguments `arguments`,
    /// numbered with the next serial.
    pub fn method_call(
        &mut self,
        flags: Flags,
        proxy: Proxy<'_>,
        member: strings::String<'_>,
        arguments: &Value,
    ) -> (r: Option<Vec<u8>>)
        ensures
            message_fits(
                call_header(next_serial(old(self)@), flags, proxy, member@, arguments@),
                arguments@,
            ) ==> r is Some && final(self)@ == next_serial(old(self)@)
                && r->Some_0@ == enc_message(
                call_header(next_serial(old(self)@), flags, proxy, member@, arguments@),
                arguments@,
            ),
            !message_fits(
                call_header(next_serial(old(self)@), flags, proxy, member@, arguments@),
                arguments@,
            ) ==> r is None && final(self)@ == old(self)@,
    {
        let sig = arguments.type_of().signature();
        let serial = if self.0 == u32::MAX {
            1
        } else {
            self.0 + 1
        };
        let signature = if sig.len() == 0 {
            None
        } else {
            Some(strings::Signature::from_bytes(sig.as_slice()))
        };
        let fields = Fields { signature, member: Some(member), ..proxy.fields() };
        let header = Header { message_type: MessageType::MethodCall, flags, serial, fields };
        assert(header@ == call_header(serial, flags, proxy, member@, arguments@));
        match marshal_message(&header, arguments) {
            Some(bytes) => {
                self.0 = serial;
                Some(bytes)
            },
            None => None,
        }
    }

    /// The reply to the method call `method_call`.
    pub fn method_return(
        &mut self,
        method_call: &Header,
        arguments: &Value,
    ) -> (r: Option<Vec<u8>>)
        ensures
            message_fits(
                return_header(next_serial(old(self)@), method_call@, arguments@),
                arguments@,
            ) ==> r is Some && final(self)@ == next_serial(old(self)@)
                && r->Some_0@ == enc_message(
                return_header(next_serial(old(self)@), method_call@, arguments@),
                arguments@,
            ),
            !message_fits(
                return_header(next_serial(old(self)@), method_call@, arguments@),
                arguments@,
            ) ==> r is None && final(self)@ == old(self)@,
    {
        let sig = arguments.type_of().signature();
        let serial = if self.0 == u32::MAX {
            1
        } else {
            self.0 + 1
        };
        let signature = if sig.len() == 0 {
            None
        } else {
            Some(strings::Signature::from_bytes(sig.as_slice()))
        };
        let fields = Fields {
            signature,
            reply_serial: Some(method_call.serial),
            destination: method_call.fields.sender,
            ..Fields::empty()
        };
        let header = Header {
            message_type: MessageType::MethodReturn,
            flags: Flags::empty(),
            serial,
            fields,
        };
        assert(header@ == return_header(serial, method_call@, arguments@));
        match marshal_message(&header, arguments) {
            Some(bytes) => {
                self.0 = serial;
                Some(bytes)
            },
            None => None,
        }
    }

    /// The error `name` in reply to the method call `method_call`.
    pub fn error(
        &mut self,
        name: strings::String<'_>,
        method_call: &Header,
        arguments: &Value,
    ) -> (r: Option<Vec<u8>>)
        ensures
            message_fits(
                error_header(next_serial(old(self)@), name@, method_call@, arguments@),
                arguments@,
            ) ==> r is Some && final(self)@ == next_serial(old(self)@)
                && r->Some_0@ == enc_message(
                error_header(next_serial(old(self)@), name@, method_call@, arguments@),
                arguments@,
            ),
            !message_fits(
                error_header(next_serial(old(self)@), name@, method_call@, arguments@),
                arguments@,
            ) ==> r is None && final(self)@ == old(self)@,
    {
        let sig = arguments.type_of().signature();
        let serial = if self.0 == u32::MAX {
            1
        } else {
            self.0 + 1
        };
        let signature = if sig.len() == 0 {
            None
        } else {
            Some(strings::Signature::from_bytes(sig.as_slice()))
        };
        let fields = Fields {
            signature,
            error_name: Some(name),
            reply_serial: Some(method_call.serial),
            destination: method_call.fields.sender,
            ..Fields::empty()
        };
        let header = Header { message_type: MessageType::Error, flags: Flags::empty(), serial, fields };
        assert(header@ == error_header(serial, name@, method_call@, arguments@));
        match marshal_message(&header, arguments) {
            Some(bytes) => {
                self.0 = serial;
                Some(bytes)
            },
            None => None,
        }
    }

    /// The signal `member` of `interface`, sent from the object `path`.
    pub fn signal(
        &mut self,
        path: strings::ObjectPath<'_>,
        interface: strings::String<'_>,
        member: strings::String<'_>,
        arguments: &Value,
    ) -> (r: Option<Vec<u8>>)
        ensures
            message_fits(
                signal_header(next_serial(old(self)@), path@, interface@, member@, arguments@),
                arguments@,
            ) ==> r is Some && final(self)@ == next_serial(old(self)@)
                && r->Some_0@ == enc_message(
                signal_header(next_serial(old(self)@), path@, interface@, member@, arguments@),
                arguments@,
            ),
            !message_fits(
                signal_header(next_serial(old(self)@), path@, interface@, member@, arguments@),
                arguments@,
            ) ==> r is None && final(self)@ == old(self)@,
    {
        let sig = arguments.type_of().signature();
        let serial = if self.0 == u32::MAX {
            1
        } else {
            self.0 + 1
        };
        let signature = if sig.len() == 0 {
            None
        } else {
            Some(strings::Signature::from_bytes(sig.as_slice()))
        };
        let fields = Fields {
            signature,
            path: Some(path),
            interface: Some(interface),
            member: Some(member),
            ..Fields::empty()
        };
        let header = Header { message_type: MessageType::Signal, flags: Flags::empty(), serial, fields };
        assert(header@ == signal_header(serial, path@, interface@, member@, arguments@));
        match marshal_message(&header, arguments) {
            Some(bytes) => {
                self.0 = serial;
                Some(bytes)
            },
            None => None,
        }
    }
}

} // verus!
