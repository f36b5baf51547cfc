//! A sink that discards every change.

use vstd::prelude::*;

verus! {

pub const TAG: u16 = 3;

/// A sink that discards every change that it is given.
#[derive(Clone, Copy, Debug, PartialEq, Eq, Structural)]
pub struct DiscardDefinition;

/// The running sink.
#[derive(Debug)]
pub struct DiscardOperation;

/// Why a change is not discarded.
#[derive(Clone, Copy, Debug, PartialEq, Eq, Structural)]
pub enum DiscardError {
    InvalidInputPort { port: usize },
}

/// What a turn of the sink leads to.
#[derive(Clone, Copy, Debug, PartialEq, Eq, Structural)]
pub enum DiscardTurn {
    Idle,
    Complete,
}

/// Why a stored definition cannot be read.
#[derive(Clone, Copy, Debug, PartialEq, Eq, Structural)]
pub enum DiscardCodecError {
    TrailingBytes,
}

impl DiscardDefinition {
    pub fn new() -> (definition: DiscardDefinition)
        ensures
            definition == DiscardDefinition,
    {
        DiscardDefinition
    }

    pub fn persistence_tag(&self) -> (tag: u16)
        ensures
            tag == TAG,
    {
        TAG
    }

    /// Appends what is stored of the definition, which is nothing.
    pub fn encode_payload(&self, output: &mut Vec<u8>)
        ensures
            final(output)@ == old(output)@,
    {
    }
}

impl DiscardError {
    pub fn message(&self) -> (text: String)
        ensures
            match *self {
                DiscardError::InvalidInputPort { port } => text@
                    == "discard does not accept input port "@ + crate::text::decimal(port as nat),
            },
    {
        match self {
            DiscardError::InvalidInputPort { port } => {
                let mut text: String = "discard does not accept input port ".to_owned();
                crate::text::push_decimal(&mut text, *port as u64);
                text
            },
        }
    }
}

impl DiscardOperation {
    /// Completes a change that comes in on the only port, and idles without one.
    pub fn turn(&mut self, input_port: Option<usize>) -> (result: Result<DiscardTurn, DiscardError>)
        ensures
            result == (match input_port {
                None => Ok::<DiscardTurn, DiscardError>(DiscardTurn::Idle),
                Some(port) => if port == 0 {
                    Ok(DiscardTurn::Complete)
                } else {
                    Err(DiscardError::InvalidInputPort { port })
                },
            }),
    {
        match input_port {
            None => Ok(DiscardTurn::Idle),
            Some(port) => if port == 0 {
                Ok(DiscardTurn::Complete)
            } else {
                Err(DiscardError::InvalidInputPort { port })
            },
        }
    }
}

/// Reads a stored definition.
pub fn decode_definition(payload: &[u8]) -> (result: Result<DiscardDefinition, DiscardCodecError>)
    ensures
        result == (if payload@.len() == 0 {
            Ok::<DiscardDefinition, DiscardCodecError>(DiscardDefinition)
        } else {
            Err(DiscardCodecError::TrailingBytes)
        }),
{
    if payload.len() == 0 {
        Ok(DiscardDefinition::new())
    } else {
        Err(DiscardCodecError::TrailingBytes)
    }
}

} // verus!
