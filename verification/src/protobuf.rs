//! Bookkeeping around the decoding of Protobuf data.

use vstd::prelude::*;
use crate::text::{decimal, push_decimal};

verus! {

/// An error that occurred while decoding a datum.
#[derive(Debug)]
pub enum DecodeError {
    Text(String),
}

/// How many bytes stand in front of a datum in the Confluent wire format: a
/// zero byte and a schema id of four bytes.
pub const CONFLUENT_HEADER_LEN: usize = 5;

/// What the decoder of a Protobuf source keeps between messages.
#[derive(Debug)]
pub struct ProtobufDecoderState {
    confluent_wire_format: bool,
    events_success: i64,
    events_error: i64,
}

impl ProtobufDecoderState {
    /// Whether the data carry the header of the Confluent wire format.
    pub closed spec fn spec_confluent_wire_format(&self) -> bool {
        self.confluent_wire_format
    }

    /// How many data were decoded.
    pub closed spec fn spec_events_success(&self) -> int {
        self.events_success as int
    }

    /// How many data could not be decoded.
    pub closed spec fn spec_events_error(&self) -> int {
        self.events_error as int
    }

    /// A fresh state: nothing has been decoded yet.
    pub fn new(confluent_wire_format: bool) -> (state: Self)
        ensures
            state.spec_confluent_wire_format() == confluent_wire_format,
            state.spec_events_success() == 0,
            state.spec_events_error() == 0,
    {
        ProtobufDecoderState { confluent_wire_format, events_success: 0, events_error: 0 }
    }

    /// How many data were decoded.
    pub fn events_success(&self) -> (n: i64)
        ensures
            n == self.spec_events_success(),
    {
        self.events_success
    }

    /// How many data could not be decoded.
    pub fn events_error(&self) -> (n: i64)
        ensures
            n == self.spec_events_error(),
    {
        self.events_error
    }

    /// The part of `bytes` that is handed to the decoder.
    ///
    /// In the Confluent wire format the first byte is a magic byte and the
    /// next four bytes are a schema id; both are skipped, and fewer than
    /// five bytes are an error. The schema id is not looked at: there is no
    /// resolving of one Protobuf schema against another.
    pub fn payload<'a>(&self, bytes: &'a [u8]) -> (r: Result<&'a [u8], DecodeError>)
        ensures
            match r {
                Ok(rest) => if self.spec_confluent_wire_format() {
                    bytes@.len() >= 5 && rest@ == bytes@.subrange(5, bytes@.len() as int)
                } else {
                    rest@ == bytes@
                },
                Err(DecodeError::Text(message)) => self.spec_confluent_wire_format() && bytes@.len() < 5
                    && message@
                    == "Confluent-style Protobuf datum is too few bytes: expected at least 5 bytes, got "@
                    + decimal(bytes@.len()),
            },
    {
        if self.confluent_wire_format {
            if bytes.len() < CONFLUENT_HEADER_LEN {
                let mut message = String::from_str(
                    "Confluent-style Protobuf datum is too few bytes: expected at least 5 bytes, got ",
                );
                push_decimal(&mut message, bytes.len() as u64);
                return Err(DecodeError::Text(message));
            }
            Ok(vstd::slice::slice_subrange(bytes, CONFLUENT_HEADER_LEN, bytes.len()))
        } else {
            Ok(bytes)
        }
    }

    /// Takes note of what the decoder made of one datum and hands the row on.
    ///
    /// A row counts as a success. No row, and an error of the decoder, count
    /// as errors and are reported in words.
    pub fn get_value<R>(&mut self, decoded: Result<Option<R>, String>) -> (r: Option<
        Result<R, DecodeError>,
    >)
        requires
            decoded matches Ok(Some(_)) ==> old(self).spec_events_success() < i64::MAX,
            !(decoded matches Ok(Some(_))) ==> old(self).spec_events_error() < i64::MAX,
        ensures
            final(self).spec_confluent_wire_format() == old(self).spec_confluent_wire_format(),
            match decoded {
                Ok(Some(row)) => r == Some(Ok::<R, DecodeError>(row)) && final(self).spec_events_success()
                    == old(self).spec_events_success() + 1 && final(self).spec_events_error() == old(self).spec_events_error(),
                Ok(None) => r matches Some(Err(DecodeError::Text(message))) && message@
                    == "protobuf deserialization returned None"@ && final(self).spec_events_success()
                    == old(self).spec_events_success() && final(self).spec_events_error() == old(self).spec_events_error() + 1,
                Err(err) => r matches Some(Err(DecodeError::Text(message))) && message@
                    == "protobuf deserialization error: "@ + err@ && final(self).spec_events_success()
                    == old(self).spec_events_success() && final(self).spec_events_error() == old(self).spec_events_error() + 1,
            },
    {
        match decoded {
            Ok(row) => {
                if let Some(row) = row {
                    self.events_success += 1;
                    Some(Ok(row))
                } else {
                    self.events_error += 1;
                    Some(Err(DecodeError::Text(String::from_str("protobuf deserialization returned None"))))
                }
            },
            Err(err) => {
                self.events_error += 1;
                let mut message = String::from_str("protobuf deserialization error: ");
                message.append(err.as_str());
                Some(Err(DecodeError::Text(message)))
            },
        }
    }
}

} // verus!
