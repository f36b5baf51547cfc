//! The definition of an Apache Doris sink, and how it is stored.

use crate::bytes::{push_all, same_bytes};
use crate::json::{json_string, json_text};
use crate::doris::config::{spec_fault, DorisTargetSpec, SpecModel};
use crate::doris::error::{invalid_spec, DorisErrorModel, DorisSinkError};
use crate::text::{byte_len, decimal, push_decimal, text_bytes};
use vstd::prelude::*;
use vstd::utf8::encode_utf8;

verus! {

pub const TAG: u16 = 18;

pub const MAX_DEFINITION_BYTES: usize = 1048576;

/// What is stored of a target: its fields in order, as a JSON object.
pub open spec fn target_json(model: SpecModel) -> Seq<char> {
    "{\"sink_id\":"@ + json_string(model.sink_id) + ",\"database\":"@ + json_string(model.database)
        + ",\"table\":"@ + json_string(model.table) + ",\"cluster_id\":"@
        + decimal(model.cluster_id as nat)
        + "}"@
}

fn encoded_target(target: &DorisTargetSpec) -> (text: String)
    ensures
        text@ == target_json(target@),
{
    let mut text: String = "{\"sink_id\":".to_owned();
    text.append(json_text(target.sink_id()).as_str());
    text.append(",\"database\":");
    text.append(json_text(target.database()).as_str());
    text.append(",\"table\":");
    text.append(json_text(target.table()).as_str());
    text.append(",\"cluster_id\":");
    push_decimal(&mut text, target.cluster_id());
    text.append("}");
    text
}

/// Why a target does not define a sink, if it does not.
pub open spec fn definition_fault(model: SpecModel) -> Option<Seq<char>> {
    if spec_fault(model) is Some {
        spec_fault(model)
    } else if byte_len(target_json(model)) > MAX_DEFINITION_BYTES {
        Some("target specification exceeds the 1 MiB definition limit"@)
    } else {
        None
    }
}

/// A sink that holds its relation in an Apache Doris table, seen through a view.
#[derive(Debug, PartialEq, Eq)]
pub struct DorisSinkDefinition {
    target: DorisTargetSpec,
}

impl View for DorisSinkDefinition {
    type V = SpecModel;

    closed spec fn view(&self) -> SpecModel {
        self.target@
    }
}

impl DorisSinkDefinition {
    pub fn try_new(target: DorisTargetSpec) -> (result: Result<
        DorisSinkDefinition,
        DorisSinkError,
    >)
        ensures
            match result {
                Ok(definition) => definition_fault(target@) is None && definition@ == target@,
                Err(error) => {
                    &&& definition_fault(target@) is Some
                    &&& error@ == (DorisErrorModel::InvalidSpec {
                        message: definition_fault(target@)->0,
                    })
                },
            },
    {
        target.validate()?;
        if text_bytes(encoded_target(&target).as_str()) > MAX_DEFINITION_BYTES {
            return Err(invalid_spec("target specification exceeds the 1 MiB definition limit"));
        }
        Ok(DorisSinkDefinition { target })
    }

    /// The target that belongs to the sink.
    pub fn target(&self) -> (target: &DorisTargetSpec)
        ensures
            target@ == self@,
    {
        &self.target
    }

    pub fn persistence_tag(&self) -> (tag: u16)
        ensures
            tag == TAG,
    {
        TAG
    }

    /// Appends what is stored of the definition.
    pub fn encode_payload(&self, output: &mut Vec<u8>)
        ensures
            final(output)@ == old(output)@ + encode_utf8(target_json(self@)),
    {
        let text: String = encoded_target(&self.target);
        push_all(output, text.as_str().as_bytes());
    }
}

/// The fields that a stored definition was parsed into.
#[derive(Debug)]
pub struct ParsedTarget {
    pub sink_id: String,
    pub database: String,
    pub table: String,
    pub cluster_id: u64,
}

/// What parsed fields say.
pub open spec fn parsed_model(parsed: ParsedTarget) -> SpecModel {
    SpecModel {
        sink_id: parsed.sink_id@,
        database: parsed.database@,
        table: parsed.table@,
        cluster_id: parsed.cluster_id,
    }
}

/// Whether a stored definition is accepted: it was parsed, it defines a sink, and it is
/// stored exactly as that definition is.
pub open spec fn payload_accepted(payload: Seq<u8>, parsed: Option<ParsedTarget>) -> bool {
    &&& payload.len() <= MAX_DEFINITION_BYTES
    &&& parsed is Some
    &&& definition_fault(parsed_model(parsed->0)) is None
    &&& payload == encode_utf8(target_json(parsed_model(parsed->0)))
}

/// Reads a stored definition, which was parsed into its fields, if that was possible.
pub fn decode_definition(payload: &[u8], parsed: Option<ParsedTarget>) -> (definition: Option<
    DorisSinkDefinition,
>)
    ensures
        definition is Some <==> payload_accepted(payload@, parsed),
        definition is Some ==> definition->0@ == parsed_model(parsed->0),
{
    if payload.len() > MAX_DEFINITION_BYTES {
        return None;
    }
    let fields: ParsedTarget = match parsed {
        Some(fields) => fields,
        None => {
            return None;
        },
    };
    let target: DorisTargetSpec = match DorisTargetSpec::try_new(
        fields.sink_id.as_str(),
        fields.database.as_str(),
        fields.table.as_str(),
        fields.cluster_id,
    ) {
        Ok(target) => target,
        Err(_) => {
            return None;
        },
    };
    let definition: DorisSinkDefinition = match DorisSinkDefinition::try_new(target) {
        Ok(definition) => definition,
        Err(_) => {
            return None;
        },
    };
    let encoded: String = encoded_target(definition.target());
    if !same_bytes(encoded.as_str().as_bytes(), payload) {
        return None;
    }
    Some(definition)
}

/// A stored definition is accepted again, once it was parsed into the fields that it was
/// made of.
pub proof fn law_definition_is_accepted(model: SpecModel, parsed: ParsedTarget)
    requires
        definition_fault(model) is None,
        parsed_model(parsed) == model,
    ensures
        payload_accepted(encode_utf8(target_json(model)), Some(parsed)),
{
}

} // verus!
