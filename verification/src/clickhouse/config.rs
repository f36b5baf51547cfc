//! Where a ClickHouse sink connects, and which target is its own.

use crate::address::{is_numeric_address, numeric_address};
use crate::clickhouse::error::{
    invalid_config, invalid_spec, ClickHouseErrorModel, ClickHouseSinkError,
};
use crate::postgres::config::{is_sink_id, sink_id_fits};
use crate::notation::{brief, canonical_address, write_address};
use crate::text::{
    blank, byte_len, chars_of, debug_string, debug_text, decimal, hex_digit, hex_of, holds_char,
    is_blank, join_two, push_char, push_decimal, same_text, text_bytes, trim, trimmed, views,
};
use crate::text::{first_line, hex, line_at};
use vstd::prelude::*;
use vstd::utf8::encode_utf8;

verus! {

pub const MAX_IDENTIFIER_BYTES: usize = 255;

/// Whether a byte is a control character, which no header may hold.
pub open spec fn control(byte: u8) -> bool {
    byte < 0x20 || byte == 0x7f
}

/// Whether a text holds a control character.
pub open spec fn holds_control(text: Seq<char>) -> bool {
    exists|i: int| 0 <= i < encode_utf8(text).len() && control(#[trigger] encode_utf8(text)[i])
}

fn contains_header_control(text: &str) -> (result: bool)
    ensures
        result == holds_control(text@),
{
    let bytes: &[u8] = text.as_bytes();
    let mut index: usize = 0;
    while index < bytes.len()
        invariant
            bytes@ == encode_utf8(text@),
            index <= bytes@.len(),
            forall|i: int| 0 <= i < index ==> !control(#[trigger] bytes@[i]),
        decreases bytes@.len() - index,
    {
        if bytes[index] < 0x20 || bytes[index] == 0x7f {
            assert(control(encode_utf8(text@)[index as int]));
            return true;
        }
        index += 1;
    }
    false
}

/// A byte of a text within single quotes: printable characters as they are, others escaped.
pub open spec fn literal_byte(byte: u8) -> Seq<char> {
    if byte == 0x5c {
        "\\\\"@
    } else if byte == 0x27 {
        "\\'"@
    } else if byte == 0x0a {
        "\\n"@
    } else if byte == 0x0d {
        "\\r"@
    } else if byte == 0x09 {
        "\\t"@
    } else if 0x20 <= byte <= 0x7e {
        seq![byte as char]
    } else {
        "\\x"@ + seq![hex_digit((byte / 16) as nat), hex_digit((byte % 16) as nat)]
    }
}

/// Bytes within single quotes.
pub open spec fn literal_bytes(bytes: Seq<u8>) -> Seq<char>
    decreases bytes.len(),
{
    if bytes.len() == 0 {
        Seq::empty()
    } else {
        literal_bytes(bytes.drop_last()) + literal_byte(bytes.last())
    }
}

/// A text as a literal of ClickHouse.
pub open spec fn literal(text: Seq<char>) -> Seq<char> {
    "'"@ + literal_bytes(encode_utf8(text)) + "'"@
}

fn byte_text(byte: u8) -> (text: String)
    ensures
        text@ == literal_byte(byte),
{
    if byte == 0x5c {
        "\\\\".to_owned()
    } else if byte == 0x27 {
        "\\'".to_owned()
    } else if byte == 0x0a {
        "\\n".to_owned()
    } else if byte == 0x0d {
        "\\r".to_owned()
    } else if byte == 0x09 {
        "\\t".to_owned()
    } else if 0x20 <= byte && byte <= 0x7e {
        let mut text: String = String::new();
        push_char(&mut text, byte as char);
        assert(text@ =~= seq![byte as char]);
        text
    } else {
        let mut single: Vec<u8> = Vec::new();
        single.push(byte);
        let digits: String = hex(single.as_slice());
        proof {
            assert(single@.drop_last() =~= Seq::empty());
            assert(hex_of(Seq::<u8>::empty()) =~= Seq::<char>::empty());
            assert(digits@ =~= seq![
                hex_digit((byte / 16) as nat),
                hex_digit((byte % 16) as nat),
            ]);
        }
        join_two("\\x", digits.as_str())
    }
}

pub fn string_literal(value: &str) -> (text: String)
    ensures
        text@ == literal(value@),
{
    let bytes: &[u8] = value.as_bytes();
    let mut inner: String = String::new();
    let mut index: usize = 0;
    assert(literal_bytes(bytes@.take(0)) =~= Seq::empty());
    while index < bytes.len()
        invariant
            index <= bytes@.len(),
            inner@ == literal_bytes(bytes@.take(index as int)),
        decreases bytes@.len() - index,
    {
        inner.append(byte_text(bytes[index]).as_str());
        assert(bytes@.take(index + 1).drop_last() =~= bytes@.take(index as int));
        index += 1;
    }
    assert(bytes@.take(index as int) =~= bytes@);
    let mut text: String = "'".to_owned();
    text.append(inner.as_str());
    text.append("'");
    text
}

/// Credentials and endpoint of one ClickHouse sink.
pub struct ClickHouseSinkConfig {
    host: String,
    port: u16,
    database: String,
    user: String,
    password: String,
}

/// What a configuration holds.
pub ghost struct ConfigModel {
    pub host: Seq<char>,
    pub port: u16,
    pub database: Seq<char>,
    pub user: Seq<char>,
    pub password: Seq<char>,
}

impl View for ClickHouseSinkConfig {
    type V = ConfigModel;

    closed spec fn view(&self) -> ConfigModel {
        ConfigModel {
            host: self.host@,
            port: self.port,
            database: self.database@,
            user: self.user@,
            password: self.password@,
        }
    }
}

/// Why a configuration cannot be used, if it cannot.
pub open spec fn config_fault(model: ConfigModel) -> Option<Seq<char>> {
    if !numeric_address(model.host) {
        Some("host must be a numeric IPv4 or IPv6 address"@)
    } else if model.port == 0 {
        Some("port must be nonzero"@)
    } else if blank(model.database) || holds_control(model.database) || blank(model.user)
        || holds_control(model.user) || holds_control(model.password) {
        Some("invalid ClickHouse connection fields"@)
    } else {
        None
    }
}

/// What a configuration shows of itself: everything but the password.
pub open spec fn shown(model: ConfigModel) -> Seq<char> {
    "ClickHouseSinkConfig { host: "@ + model.host + ", port: "@ + decimal(model.port as nat)
        + ", database: "@ + debug_string(model.database) + ", user: "@ + debug_string(model.user)
        + ", password: \"[redacted]\", .. }"@
}

/// The address at which the server listens, with brackets round one of version 6.
pub open spec fn endpoint_base(model: ConfigModel) -> Seq<char> {
    if model.host.contains(':') {
        "http://["@ + model.host + "]:"@ + decimal(model.port as nat) + "/"@
    } else {
        "http://"@ + model.host + ":"@ + decimal(model.port as nat) + "/"@
    }
}

/// The address of a server is as short as its host.
proof fn lemma_base_is_brief(model: ConfigModel)
    requires
        brief(model.host, 100),
    ensures
        brief(endpoint_base(model), 200),
{
    reveal_strlit("http://[");
    reveal_strlit("http://");
    reveal_strlit("]:");
    reveal_strlit(":");
    reveal_strlit("/");
    reveal_with_fuel(decimal, 6);
    let port = model.port as nat;
    assert(port / 10 < 6554);
    assert(port / 10 / 10 < 656);
    assert(port / 10 / 10 / 10 < 66);
    assert(port / 10 / 10 / 10 / 10 < 7);
    assert(brief(decimal(port), 5));
}

/// The names of the query parameters.
pub open spec fn endpoint_keys() -> Seq<Seq<char>> {
    seq![
        "database"@,
        "wait_end_of_query"@,
        "max_query_size"@,
        "send_progress_in_http_headers"@,
    ]
}

/// The values of the query parameters.
pub open spec fn endpoint_values(model: ConfigModel) -> Seq<Seq<char>> {
    seq![model.database, "1"@, "16777216"@, "0"@]
}

/// A URL with query parameters, where `base` is one.
pub uninterp spec fn url_with_query(
    base: Seq<char>,
    keys: Seq<Seq<char>>,
    values: Seq<Seq<char>>,
) -> Option<Seq<char>>;

/// Calls `url::Url::parse` on `base` and appends each key with its value to the query pairs:
/// the URL depends on the arguments alone, and there is none where `base` is not a URL. How
/// the parts are escaped is not stated. A base of many bytes, or one with a fragment, is left
/// out: on such a base the call can panic.
#[verifier::external_body]
pub(crate) fn query_url(base: &str, keys: &Vec<String>, values: &Vec<String>) -> (url: Option<
    String,
>)
    requires
        base@.len() <= 0x4000,
        !base@.contains('#'),
    ensures
        match url {
            Some(url) => url_with_query(base@, views(keys@), views(values@)) == Some(url@),
            None => url_with_query(base@, views(keys@), views(values@)) is None,
        },
{
    match url::Url::parse(base) {
        Ok(mut url) => {
            url.query_pairs_mut().extend_pairs(keys.iter().zip(values.iter()));
            Some(String::from(url))
        },
        Err(_) => None,
    }
}

impl ClickHouseSinkConfig {
    /// The host is the short text of a numeric address.
    #[verifier::type_invariant]
    spec fn names_a_host(self) -> bool {
        brief(self.host@, 100)
    }

    /// A configuration for an unencrypted connection. The host is kept in its canonical
    /// notation.
    pub fn new_unencrypted(host: &str, port: u16, database: &str, user: &str, password: &str) -> (result:
        Result<ClickHouseSinkConfig, ClickHouseSinkError>)
        ensures
            ({
                let model = ConfigModel {
                    host: host@,
                    port,
                    database: database@,
                    user: user@,
                    password: password@,
                };
                match result {
                    Ok(config) => config_fault(model) is None && config@ == (ConfigModel {
                        host: canonical_address(host@),
                        ..model
                    }),
                    Err(error) => {
                        &&& config_fault(model) is Some
                        &&& error@ == (ClickHouseErrorModel::InvalidConfig {
                            message: config_fault(model)->0,
                        })
                    },
                }
            }),
    {
        if !is_numeric_address(host) {
            return Err(invalid_config("host must be a numeric IPv4 or IPv6 address"));
        }
        if port == 0 {
            return Err(invalid_config("port must be nonzero"));
        }
        if is_blank(database) || contains_header_control(database) || is_blank(user)
            || contains_header_control(user) || contains_header_control(password) {
            return Err(invalid_config("invalid ClickHouse connection fields"));
        }
        Ok(
            ClickHouseSinkConfig {
                host: write_address(host),
                port,
                database: database.to_owned(),
                user: user.to_owned(),
                password: password.to_owned(),
            },
        )
    }

    pub fn database(&self) -> (database: &str)
        ensures
            database@ == self@.database,
    {
        self.database.as_str()
    }

    pub fn user(&self) -> (user: &str)
        ensures
            user@ == self@.user,
    {
        self.user.as_str()
    }

    pub fn password(&self) -> (password: &str)
        ensures
            password@ == self@.password,
    {
        self.password.as_str()
    }

    /// What may be shown of the configuration: the password is left out.
    pub fn redacted(&self) -> (text: String)
        ensures
            text@ == shown(self@),
    {
        let mut text: String = "ClickHouseSinkConfig { host: ".to_owned();
        text.append(self.host.as_str());
        text.append(", port: ");
        push_decimal(&mut text, self.port as u64);
        text.append(", database: ");
        text.append(debug_text(self.database.as_str()).as_str());
        text.append(", user: ");
        text.append(debug_text(self.user.as_str()).as_str());
        text.append(", password: \"[redacted]\", .. }");
        text
    }

    /// The URL that commands are sent to.
    pub fn endpoint(&self) -> (result: Result<String, ClickHouseSinkError>)
        ensures
            ({
                let url = url_with_query(
                    endpoint_base(self@),
                    endpoint_keys(),
                    endpoint_values(self@),
                );
                match result {
                    Ok(text) => url == Some(text@),
                    Err(error) => url is None && error@ == (ClickHouseErrorModel::InvalidConfig {
                        message: "invalid HTTP endpoint"@,
                    }),
                }
            }),
    {
        proof {
            use_type_invariant(self);
            lemma_base_is_brief(self@);
        }
        let version_six: bool = holds_char(self.host.as_str(), ':');
        let mut base: String = if version_six {
            "http://[".to_owned()
        } else {
            "http://".to_owned()
        };
        base.append(self.host.as_str());
        if version_six {
            base.append("]:");
        } else {
            base.append(":");
        }
        push_decimal(&mut base, self.port as u64);
        base.append("/");
        let mut keys: Vec<String> = Vec::new();
        keys.push("database".to_owned());
        keys.push("wait_end_of_query".to_owned());
        keys.push("max_query_size".to_owned());
        keys.push("send_progress_in_http_headers".to_owned());
        let mut values: Vec<String> = Vec::new();
        values.push(self.database.clone());
        values.push("1".to_owned());
        values.push("16777216".to_owned());
        values.push("0".to_owned());
        assert(views(keys@) =~= endpoint_keys());
        assert(views(values@) =~= endpoint_values(self@));
        match query_url(base.as_str(), &keys, &values) {
            Some(url) => Ok(url),
            None => Err(invalid_config("invalid HTTP endpoint")),
        }
    }

    /// The query for the identity of the database, once the names of a target can be used.
    pub fn identity_request(&self, sink_id: &str, table: &str) -> (result: Result<
        String,
        ClickHouseSinkError,
    >)
        ensures
            ({
                let fault = names_fault(
                    SpecModel {
                        sink_id: sink_id@,
                        database: self@.database,
                        table: table@,
                        database_uuid: Seq::empty(),
                    },
                );
                match result {
                    Ok(sql) => fault is None && sql@ == identity_query(self@.database),
                    Err(error) => fault is Some && error@ == (ClickHouseErrorModel::InvalidSpec {
                        message: fault->0,
                    }),
                }
            }),
    {
        let draft: ClickHouseTargetSpec = ClickHouseTargetSpec {
            sink_id: sink_id.to_owned(),
            database: self.database.clone(),
            table: table.to_owned(),
            database_uuid: String::new(),
        };
        draft.validate_names()?;
        Ok(identity_sql(self.database.as_str()))
    }

    /// The target that a server was found to be able to hold: its database has an identity,
    /// and none of the sink's own objects is there yet.
    pub fn discover_target(
        &self,
        sink_id: &str,
        table: &str,
        identity_body: &str,
        absence_body: &str,
    ) -> (result: Result<ClickHouseTargetSpec, ClickHouseSinkError>)
        ensures
            ({
                let model = SpecModel {
                    sink_id: sink_id@,
                    database: self@.database,
                    table: table@,
                    database_uuid: trimmed(identity_body@),
                };
                match result {
                    Ok(spec) => {
                        &&& spec_fault(model) is None
                        &&& first_name(absence_body@) is None
                        &&& spec@ == model
                    },
                    Err(error) => match spec_fault(model) {
                        Some(fault) => error@ == (ClickHouseErrorModel::InvalidSpec {
                            message: fault,
                        }),
                        None => {
                            &&& first_name(absence_body@) is Some
                            &&& error@ == (ClickHouseErrorModel::TargetExists {
                                name: first_name(absence_body@)->0,
                            })
                        },
                    },
                }
            }),
    {
        let spec: ClickHouseTargetSpec = ClickHouseTargetSpec::try_new(
            sink_id,
            self.database.as_str(),
            table,
            trim(identity_body).as_str(),
        )?;
        require_absent(absence_body)?;
        Ok(spec)
    }
}

/// The first line of a reply, if it names an object.
pub open spec fn first_name(body: Seq<char>) -> Option<Seq<char>> {
    if line_at(body).len() == 0 {
        None
    } else {
        Some(line_at(body))
    }
}

/// Requires that the reply to the absence query names no object.
pub fn require_absent(body: &str) -> (result: Result<(), ClickHouseSinkError>)
    ensures
        match result {
            Ok(_) => first_name(body@) is None,
            Err(error) => first_name(body@) is Some && error@ == (
            ClickHouseErrorModel::TargetExists { name: first_name(body@)->0 }),
        },
{
    let name: String = first_line(body);
    if chars_of(name.as_str()).len() > 0 {
        Err(ClickHouseSinkError::TargetExists { name })
    } else {
        Ok(())
    }
}

/// The query for the identity of a database.
pub open spec fn identity_query(database: Seq<char>) -> Seq<char> {
    "SELECT toString(uuid) FROM system.databases WHERE name = "@ + literal(database)
        + " FORMAT TabSeparatedRaw"@
}

pub fn identity_sql(database: &str) -> (text: String)
    ensures
        text@ == identity_query(database@),
{
    let mut text: String = "SELECT toString(uuid) FROM system.databases WHERE name = ".to_owned();
    text.append(string_literal(database).as_str());
    text.append(" FORMAT TabSeparatedRaw");
    text
}

/// The identity of a target that belongs to one sink.
#[derive(Debug, PartialEq, Eq)]
pub struct ClickHouseTargetSpec {
    sink_id: String,
    database: String,
    table: String,
    database_uuid: String,
}

/// What a target identity holds.
pub ghost struct SpecModel {
    pub sink_id: Seq<char>,
    pub database: Seq<char>,
    pub table: Seq<char>,
    pub database_uuid: Seq<char>,
}

impl View for ClickHouseTargetSpec {
    type V = SpecModel;

    closed spec fn view(&self) -> SpecModel {
        SpecModel {
            sink_id: self.sink_id@,
            database: self.database@,
            table: self.table@,
            database_uuid: self.database_uuid@,
        }
    }
}

/// Whether a text can be an identifier of ClickHouse.
pub open spec fn identifier_fits(text: Seq<char>) -> bool {
    0 < byte_len(text) <= MAX_IDENTIFIER_BYTES && !text.contains('\0')
}

fn is_identifier(text: &str) -> (result: bool)
    ensures
        result == identifier_fits(text@),
{
    let length: usize = text_bytes(text);
    length != 0 && length <= MAX_IDENTIFIER_BYTES && !holds_char(text, '\0')
}

/// The name of the table that holds the state of a sink.
pub open spec fn state_name(sink_id: Seq<char>) -> Seq<char> {
    "$dogpaddle.state."@ + sink_id
}

/// The mark by which the state table of a sink is recognised.
pub open spec fn marker_name(sink_id: Seq<char>) -> Seq<char> {
    "dogpaddle.clickhouse-sink.v1:"@ + sink_id
}

/// Why the names of a target cannot be used, if they cannot.
pub open spec fn names_fault(model: SpecModel) -> Option<Seq<char>> {
    if !sink_id_fits(model.sink_id) {
        Some("sink ID must contain 1–32 lowercase ASCII letters, digits, or underscores"@)
    } else if !identifier_fits(model.database) {
        Some("database must be a nonempty ClickHouse identifier of at most 255 bytes"@)
    } else if !identifier_fits(model.table) {
        Some("table must be a nonempty ClickHouse identifier of at most 255 bytes"@)
    } else if byte_len(state_name(model.sink_id)) > MAX_IDENTIFIER_BYTES {
        Some("derived state-table name exceeds 255 bytes"@)
    } else if model.table == state_name(model.sink_id) {
        Some("target view collides with the state table"@)
    } else {
        None
    }
}

/// The character at a place of a UUID: a hyphen or a hexadecimal digit in lower case.
pub open spec fn uuid_char(c: char, index: int) -> bool {
    if index == 8 || index == 13 || index == 18 || index == 23 {
        c == '-'
    } else {
        ('0' <= c && c <= '9') || ('a' <= c && c <= 'f')
    }
}

/// A UUID in its canonical form, other than the one that is all zeros.
pub open spec fn uuid_fits(text: Seq<char>) -> bool {
    &&& text.len() == 36
    &&& forall|i: int| 0 <= i < text.len() ==> uuid_char(#[trigger] text[i], i)
    &&& text != "00000000-0000-0000-0000-000000000000"@
}

fn is_uuid(text: &str) -> (result: bool)
    ensures
        result == uuid_fits(text@),
{
    let chars: Vec<char> = chars_of(text);
    if chars.len() != 36 {
        return false;
    }
    let mut index: usize = 0;
    while index < chars.len()
        invariant
            chars@ == text@,
            index <= chars@.len(),
            forall|i: int| 0 <= i < index ==> uuid_char(#[trigger] text@[i], i),
        decreases chars@.len() - index,
    {
        let c: char = chars[index];
        let fits: bool = if index == 8 || index == 13 || index == 18 || index == 23 {
            c == '-'
        } else {
            ('0' <= c && c <= '9') || ('a' <= c && c <= 'f')
        };
        if !fits {
            assert(!uuid_char(text@[index as int], index as int));
            return false;
        }
        index += 1;
    }
    !same_text(text, "00000000-0000-0000-0000-000000000000")
}

/// Why a target identity is malformed, if it is.
pub open spec fn spec_fault(model: SpecModel) -> Option<Seq<char>> {
    if names_fault(model) is Some {
        names_fault(model)
    } else if !uuid_fits(model.database_uuid) {
        Some("database UUID must be a nonzero canonical UUID"@)
    } else {
        None
    }
}

impl ClickHouseTargetSpec {
    pub fn try_new(sink_id: &str, database: &str, table: &str, database_uuid: &str) -> (result:
        Result<ClickHouseTargetSpec, ClickHouseSinkError>)
        ensures
            ({
                let model = SpecModel {
                    sink_id: sink_id@,
                    database: database@,
                    table: table@,
                    database_uuid: database_uuid@,
                };
                match result {
                    Ok(spec) => spec_fault(model) is None && spec@ == model,
                    Err(error) => {
                        &&& spec_fault(model) is Some
                        &&& error@ == (ClickHouseErrorModel::InvalidSpec {
                            message: spec_fault(model)->0,
                        })
                    },
                }
            }),
    {
        let spec: ClickHouseTargetSpec = ClickHouseTargetSpec {
            sink_id: sink_id.to_owned(),
            database: database.to_owned(),
            table: table.to_owned(),
            database_uuid: database_uuid.to_owned(),
        };
        spec.validate()?;
        Ok(spec)
    }

    /// Validates all fields of a target identity.
    pub fn validate(&self) -> (result: Result<(), ClickHouseSinkError>)
        ensures
            match result {
                Ok(_) => spec_fault(self@) is None,
                Err(error) => {
                    &&& spec_fault(self@) is Some
                    &&& error@ == (ClickHouseErrorModel::InvalidSpec {
                        message: spec_fault(self@)->0,
                    })
                },
            },
    {
        self.validate_names()?;
        if !is_uuid(self.database_uuid.as_str()) {
            return Err(invalid_spec("database UUID must be a nonzero canonical UUID"));
        }
        Ok(())
    }

    fn validate_names(&self) -> (result: Result<(), ClickHouseSinkError>)
        ensures
            match result {
                Ok(_) => names_fault(self@) is None,
                Err(error) => {
                    &&& names_fault(self@) is Some
                    &&& error@ == (ClickHouseErrorModel::InvalidSpec {
                        message: names_fault(self@)->0,
                    })
                },
            },
    {
        if !is_sink_id(self.sink_id.as_str()) {
            return Err(
                invalid_spec(
                    "sink ID must contain 1–32 lowercase ASCII letters, digits, or underscores",
                ),
            );
        }
        if !is_identifier(self.database.as_str()) {
            return Err(
                invalid_spec(
                    "database must be a nonempty ClickHouse identifier of at most 255 bytes",
                ),
            );
        }
        if !is_identifier(self.table.as_str()) {
            return Err(
                invalid_spec("table must be a nonempty ClickHouse identifier of at most 255 bytes"),
            );
        }
        let state: String = self.state_table();
        if text_bytes(state.as_str()) > MAX_IDENTIFIER_BYTES {
            return Err(invalid_spec("derived state-table name exceeds 255 bytes"));
        }
        if same_text(self.table.as_str(), state.as_str()) {
            return Err(invalid_spec("target view collides with the state table"));
        }
        Ok(())
    }

    pub fn sink_id(&self) -> (text: &str)
        ensures
            text@ == self@.sink_id,
    {
        self.sink_id.as_str()
    }

    pub fn database(&self) -> (text: &str)
        ensures
            text@ == self@.database,
    {
        self.database.as_str()
    }

    pub fn table(&self) -> (text: &str)
        ensures
            text@ == self@.table,
    {
        self.table.as_str()
    }

    pub fn database_uuid(&self) -> (text: &str)
        ensures
            text@ == self@.database_uuid,
    {
        self.database_uuid.as_str()
    }

    pub fn state_table(&self) -> (name: String)
        ensures
            name@ == state_name(self@.sink_id),
    {
        join_two("$dogpaddle.state.", self.sink_id.as_str())
    }

    pub fn marker(&self) -> (name: String)
        ensures
            name@ == marker_name(self@.sink_id),
    {
        join_two("dogpaddle.clickhouse-sink.v1:", self.sink_id.as_str())
    }

    /// The query for objects with the names of this sink.
    pub fn absence_sql(&self) -> (text: String)
        ensures
            text@ == "SELECT name FROM system.tables WHERE database = "@ + literal(self@.database)
                + " AND name IN ("@ + literal(self@.table) + ", "@ + literal(
                state_name(self@.sink_id),
            ) + ") ORDER BY name FORMAT TabSeparatedRaw"@,
    {
        let mut text: String = "SELECT name FROM system.tables WHERE database = ".to_owned();
        text.append(string_literal(self.database.as_str()).as_str());
        text.append(" AND name IN (");
        text.append(string_literal(self.table.as_str()).as_str());
        text.append(", ");
        text.append(string_literal(self.state_table().as_str()).as_str());
        text.append(") ORDER BY name FORMAT TabSeparatedRaw");
        text
    }
}

/// What is shown of a configuration is the same whatever its password.
pub proof fn law_password_is_not_shown(left: ConfigModel, right: ConfigModel)
    requires
        left == (ConfigModel { password: left.password, ..right }),
    ensures
        shown(left) == shown(right),
{
}

/// The names that a sink derives tell it apart from other sinks.
pub proof fn law_names_tell_sinks_apart(left: Seq<char>, right: Seq<char>)
    ensures
        state_name(left) == state_name(right) ==> left == right,
        marker_name(left) == marker_name(right) ==> left == right,
{
    if state_name(left) == state_name(right) {
        crate::reading::lemma_prefix_tells("$dogpaddle.state."@, left, right);
    }
    if marker_name(left) == marker_name(right) {
        crate::reading::lemma_prefix_tells("dogpaddle.clickhouse-sink.v1:"@, left, right);
    }
}

} // verus!
