use dogpaddle_sink::discard::{
    decode_definition, DiscardCodecError, DiscardDefinition, DiscardError, DiscardOperation,
    DiscardTurn, TAG,
};

#[test]
fn discard_completes_its_only_port_and_idles_without_input() {
    let mut operation = DiscardOperation;
    assert_eq!(operation.turn(None), Ok(DiscardTurn::Idle));
    assert_eq!(operation.turn(Some(0)), Ok(DiscardTurn::Complete));
    let error = operation.turn(Some(3)).unwrap_err();
    assert_eq!(error, DiscardError::InvalidInputPort { port: 3 });
    assert_eq!(error.message(), "discard does not accept input port 3");
}

#[test]
fn discard_definition_is_stored_as_nothing() {
    let definition = DiscardDefinition::new();
    let mut payload = vec![9];
    definition.encode_payload(&mut payload);
    assert_eq!(payload, [9]);
    assert_eq!(definition.persistence_tag(), TAG);
    assert_eq!(decode_definition(&[]), Ok(definition));
    assert_eq!(
        decode_definition(&[0]),
        Err(DiscardCodecError::TrailingBytes)
    );
}
