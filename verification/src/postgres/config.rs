//! Where a PostgreSQL sink connects, and which target is its own.

use crate::address::{is_numeric_address, numeric_address};
use crate::postgres::error::{invalid_config, invalid_spec, PostgresErrorModel, PostgresSinkError};
use crate::text::{
    blank, byte_len, chars_of, debug_string, debug_text, holds_char, is_blank, join_two, parse_u64,
    parsed_u64, push_decimal, same_text, text_bytes,
};
use crate::text::{decimal, views};
use vstd::prelude::*;

verus! {

pub const MAX_IDENTIFIER_BYTES: usize = 63;

pub const MAX_SINK_ID_BYTES: usize = 32;

/// Credentials and endpoint of one PostgreSQL sink.
pub struct PostgresSinkConfig {
    host: String,
    port: u16,
    database: String,
    user: String,
    password: String,
}

/// What a configuration holds.
pub ghost struct ConfigModel {
    pub host: Seq<char>,
    pub port: u16,
    pub database: Seq<char>,
    pub user: Seq<char>,
    pub password: Seq<char>,
}

/// Whether a text can name something in a connection.
pub open spec fn usable(text: Seq<char>) -> bool {
    !blank(text) && !text.contains('\0')
}

fn is_usable(text: &str) -> (result: bool)
    ensures
        result == usable(text@),
{
    !is_blank(text) && !holds_char(text, '\0')
}

/// Why a configuration cannot be used, if it cannot.
pub open spec fn config_fault(model: ConfigModel) -> Option<Seq<char>> {
    if model.port == 0 {
        Some("port must be nonzero"@)
    } else if !usable(model.host) || !usable(model.database) || !usable(model.user)
        || model.password.contains('\0') {
        Some("invalid PostgreSQL connection fields"@)
    } else if !numeric_address(model.host) {
        Some("host must be a numeric IPv4 or IPv6 address"@)
    } else {
        None
    }
}

impl View for PostgresSinkConfig {
    type V = ConfigModel;

    closed spec fn view(&self) -> ConfigModel {
        ConfigModel {
            host: self.host@,
            port: self.port,
            database: self.database@,
            user: self.user@,
            password: self.password@,
        }
    }
}

/// What a configuration shows of itself: everything but the password.
pub open spec fn shown(model: ConfigModel) -> Seq<char> {
    "PostgresSinkConfig { host: "@ + debug_string(model.host) + ", port: "@ + decimal(
        model.port as nat,
    ) + ", database: "@ + debug_string(model.database) + ", user: "@ + debug_string(model.user)
        + ", password: \"[redacted]\" }"@
}

impl PostgresSinkConfig {
    /// A configuration for an unencrypted connection, which is not opened.
    pub fn new_unencrypted(host: &str, port: u16, database: &str, user: &str, password: &str) -> (result:
        Result<PostgresSinkConfig, PostgresSinkError>)
        ensures
            ({
                let model = ConfigModel {
                    host: host@,
                    port,
                    database: database@,
                    user: user@,
                    password: password@,
                };
                match result {
                    Ok(config) => config_fault(model) is None && config@ == model,
                    Err(error) => {
                        &&& config_fault(model) is Some
                        &&& error@ == (PostgresErrorModel::InvalidConfig {
                            message: config_fault(model)->0,
                        })
                    },
                }
            }),
    {
        if port == 0 {
            return Err(invalid_config("port must be nonzero"));
        }
        if !is_usable(host) || !is_usable(database) || !is_usable(user) || holds_char(
            password,
            '\0',
        ) {
            return Err(invalid_config("invalid PostgreSQL connection fields"));
        }
        if !is_numeric_address(host) {
            return Err(invalid_config("host must be a numeric IPv4 or IPv6 address"));
        }
        Ok(
            PostgresSinkConfig {
                host: host.to_owned(),
                port,
                database: database.to_owned(),
                user: user.to_owned(),
                password: password.to_owned(),
            },
        )
    }

    pub fn host(&self) -> (host: &str)
        ensures
            host@ == self@.host,
    {
        self.host.as_str()
    }

    pub fn port(&self) -> (port: u16)
        ensures
            port == self@.port,
    {
        self.port
    }

    pub fn database(&self) -> (database: &str)
        ensures
            database@ == self@.database,
    {
        self.database.as_str()
    }

    pub fn user(&self) -> (user: &str)
        ensures
            user@ == self@.user,
    {
        self.user.as_str()
    }

    pub fn password(&self) -> (password: &str)
        ensures
            password@ == self@.password,
    {
        self.password.as_str()
    }

    /// What may be shown of the configuration: the password is left out.
    pub fn redacted(&self) -> (text: String)
        ensures
            text@ == shown(self@),
    {
        let mut text: String = "PostgresSinkConfig { host: ".to_owned();
        text.append(debug_text(self.host.as_str()).as_str());
        text.append(", port: ");
        push_decimal(&mut text, self.port as u64);
        text.append(", database: ");
        text.append(debug_text(self.database.as_str()).as_str());
        text.append(", user: ");
        text.append(debug_text(self.user.as_str()).as_str());
        text.append(", password: \"[redacted]\" }");
        text
    }

    /// The target that a server was found to be able to hold: it commits durably, it keeps
    /// identifiers exactly, and none of the sink's own objects is there yet.
    pub fn discover_target(
        &self,
        sink_id: &str,
        schema: &str,
        table: &str,
        server: &ServerIdentity,
        snapshot: &AbsenceSnapshot,
    ) -> (result: Result<PostgresTargetSpec, PostgresSinkError>)
        ensures
            ({
                let model = SpecModel {
                    sink_id: sink_id@,
                    database: self@.database,
                    schema: schema@,
                    table: table@,
                    system_identifier: server.system_identifier@,
                    database_oid: server.database_oid,
                };
                match result {
                    Ok(spec) => discovery_fault(model, *server, *snapshot) is None && spec@ == model,
                    Err(error) => discovery_fault(model, *server, *snapshot) == Some(error@),
                }
            }),
    {
        let spec: PostgresTargetSpec = PostgresTargetSpec {
            sink_id: sink_id.to_owned(),
            database: self.database.clone(),
            schema: schema.to_owned(),
            table: table.to_owned(),
            system_identifier: server.system_identifier.clone(),
            database_oid: server.database_oid,
        };
        validate_names(&spec)?;
        if !server.fsync || !server.synchronous_commit {
            return Err(PostgresSinkError::DurabilityDisabled);
        }
        if !server.utf8 {
            return Err(PostgresSinkError::UnsupportedServerEncoding);
        }
        validate_identity(&spec)?;
        validate_absence(&spec, snapshot)?;
        Ok(spec)
    }
}

/// What a server says of itself.
#[derive(Debug)]
pub struct ServerIdentity {
    pub system_identifier: String,
    pub database_oid: u32,
    pub fsync: bool,
    pub synchronous_commit: bool,
    pub utf8: bool,
}

/// What a server says of the objects of a sink: whether the schema is there, the first object
/// with one of their names, and whether a type with the name of the table is there.
#[derive(Debug)]
pub struct AbsenceSnapshot {
    pub schema_exists: bool,
    pub class_name: Option<String>,
    pub row_type_exists: bool,
}

/// The identity of a target that belongs to one sink.
#[derive(Debug, PartialEq, Eq)]
pub struct PostgresTargetSpec {
    sink_id: String,
    database: String,
    schema: String,
    table: String,
    system_identifier: String,
    database_oid: u32,
}

/// What a target identity holds.
pub ghost struct SpecModel {
    pub sink_id: Seq<char>,
    pub database: Seq<char>,
    pub schema: Seq<char>,
    pub table: Seq<char>,
    pub system_identifier: Seq<char>,
    pub database_oid: u32,
}

impl View for PostgresTargetSpec {
    type V = SpecModel;

    closed spec fn view(&self) -> SpecModel {
        SpecModel {
            sink_id: self.sink_id@,
            database: self.database@,
            schema: self.schema@,
            table: self.table@,
            system_identifier: self.system_identifier@,
            database_oid: self.database_oid,
        }
    }
}

/// Whether a character may stand in the ID of a sink.
pub open spec fn id_char(c: char) -> bool {
    ('a' <= c && c <= 'z') || ('0' <= c && c <= '9') || c == '_'
}

/// The ID of a sink: 1 to 32 lower-case letters, digits or underscores.
pub open spec fn sink_id_fits(id: Seq<char>) -> bool {
    &&& 0 < byte_len(id) <= MAX_SINK_ID_BYTES
    &&& forall|i: int| 0 <= i < id.len() ==> id_char(#[trigger] id[i])
}

/// Whether a text is an ID of a sink.
pub fn is_sink_id(id: &str) -> (result: bool)
    ensures
        result == sink_id_fits(id@),
{
    let length: usize = text_bytes(id);
    if length == 0 || length > MAX_SINK_ID_BYTES {
        return false;
    }
    let chars: Vec<char> = chars_of(id);
    let mut index: usize = 0;
    while index < chars.len()
        invariant
            chars@ == id@,
            index <= chars@.len(),
            forall|i: int| 0 <= i < index ==> id_char(#[trigger] id@[i]),
        decreases chars@.len() - index,
    {
        let c: char = chars[index];
        let fits: bool = ('a' <= c && c <= 'z') || ('0' <= c && c <= '9') || c == '_';
        if !fits {
            assert(!id_char(id@[index as int]));
            return false;
        }
        index += 1;
    }
    true
}

/// Whether a text can be an identifier of PostgreSQL.
pub open spec fn identifier_fits(text: Seq<char>) -> bool {
    0 < byte_len(text) <= MAX_IDENTIFIER_BYTES && !text.contains('\0')
}

fn is_identifier(text: &str) -> (result: bool)
    ensures
        result == identifier_fits(text@),
{
    let length: usize = text_bytes(text);
    length != 0 && length <= MAX_IDENTIFIER_BYTES && !holds_char(text, '\0')
}

/// The name of the hash index of a sink.
pub open spec fn hash_index_name(sink_id: Seq<char>) -> Seq<char> {
    "$dogpaddle.hash."@ + sink_id
}

/// The name of the primary key of a sink.
pub open spec fn primary_key_name(sink_id: Seq<char>) -> Seq<char> {
    "$dogpaddle.pk."@ + sink_id
}

/// The names of the objects that a sink owns.
pub open spec fn owned_names(model: SpecModel) -> Seq<Seq<char>> {
    seq![model.table, hash_index_name(model.sink_id), primary_key_name(model.sink_id)]
}

/// Why the names of a target cannot be used, if they cannot.
pub open spec fn names_fault(model: SpecModel) -> Option<Seq<char>> {
    if !sink_id_fits(model.sink_id) {
        Some("sink ID must contain 1–32 lowercase ASCII letters, digits, or underscores"@)
    } else if !identifier_fits(model.database) {
        Some("database must be a nonempty PostgreSQL identifier of at most 63 bytes"@)
    } else if !identifier_fits(model.schema) {
        Some("schema must be a nonempty PostgreSQL identifier of at most 63 bytes"@)
    } else if !identifier_fits(model.table) {
        Some("table must be a nonempty PostgreSQL identifier of at most 63 bytes"@)
    } else if byte_len(hash_index_name(model.sink_id)) > MAX_IDENTIFIER_BYTES || byte_len(
        primary_key_name(model.sink_id),
    ) > MAX_IDENTIFIER_BYTES {
        Some("derived sink object name exceeds 63 bytes"@)
    } else if model.table == hash_index_name(model.sink_id) || model.table == primary_key_name(
        model.sink_id,
    ) {
        Some("target table name collides with a sink-owned object"@)
    } else {
        None
    }
}

fn validate_names(spec: &PostgresTargetSpec) -> (result: Result<(), PostgresSinkError>)
    ensures
        match result {
            Ok(_) => names_fault(spec@) is None,
            Err(error) => {
                &&& names_fault(spec@) is Some
                &&& error@ == (PostgresErrorModel::InvalidSpec { message: names_fault(spec@)->0 })
            },
        },
{
    if !is_sink_id(spec.sink_id.as_str()) {
        return Err(
            invalid_spec(
                "sink ID must contain 1–32 lowercase ASCII letters, digits, or underscores",
            ),
        );
    }
    if !is_identifier(spec.database.as_str()) {
        return Err(
            invalid_spec("database must be a nonempty PostgreSQL identifier of at most 63 bytes"),
        );
    }
    if !is_identifier(spec.schema.as_str()) {
        return Err(
            invalid_spec("schema must be a nonempty PostgreSQL identifier of at most 63 bytes"),
        );
    }
    if !is_identifier(spec.table.as_str()) {
        return Err(
            invalid_spec("table must be a nonempty PostgreSQL identifier of at most 63 bytes"),
        );
    }
    let hash_index: String = spec.hash_index();
    let primary_key: String = spec.primary_key();
    if text_bytes(hash_index.as_str()) > MAX_IDENTIFIER_BYTES || text_bytes(primary_key.as_str())
        > MAX_IDENTIFIER_BYTES {
        return Err(invalid_spec("derived sink object name exceeds 63 bytes"));
    }
    if same_text(spec.table.as_str(), hash_index.as_str()) || same_text(
        spec.table.as_str(),
        primary_key.as_str(),
    ) {
        return Err(invalid_spec("target table name collides with a sink-owned object"));
    }
    Ok(())
}

/// Whether the identity of a cluster and of a database is given.
pub open spec fn identity_fits(model: SpecModel) -> bool {
    parsed_u64(model.system_identifier) is Some && parsed_u64(model.system_identifier)->0 != 0
        && model.database_oid != 0
}

fn validate_identity(spec: &PostgresTargetSpec) -> (result: Result<(), PostgresSinkError>)
    ensures
        match result {
            Ok(_) => identity_fits(spec@),
            Err(error) => !identity_fits(spec@) && error@ == (PostgresErrorModel::InvalidSpec {
                message: "cluster system identifier and database OID must be nonzero"@,
            }),
        },
{
    let identified: bool = match parse_u64(spec.system_identifier.as_str()) {
        Some(identifier) => identifier != 0,
        None => false,
    };
    if !identified || spec.database_oid == 0 {
        return Err(invalid_spec("cluster system identifier and database OID must be nonzero"));
    }
    Ok(())
}

/// Why the objects of a sink are not absent, if they are not. The table is named first: a type
/// with its name counts as the table itself.
pub open spec fn absence_fault(model: SpecModel, snapshot: AbsenceSnapshot) -> Option<
    PostgresErrorModel,
> {
    if !snapshot.schema_exists {
        Some(PostgresErrorModel::TargetMissing { name: model.schema })
    } else if snapshot.row_type_exists {
        Some(PostgresErrorModel::TargetExists { name: model.table })
    } else if snapshot.class_name is Some {
        Some(PostgresErrorModel::TargetExists { name: snapshot.class_name->0@ })
    } else {
        None
    }
}

fn validate_absence(spec: &PostgresTargetSpec, snapshot: &AbsenceSnapshot) -> (result: Result<
    (),
    PostgresSinkError,
>)
    ensures
        match result {
            Ok(_) => absence_fault(spec@, *snapshot) is None,
            Err(error) => absence_fault(spec@, *snapshot) == Some(error@),
        },
{
    if !snapshot.schema_exists {
        return Err(PostgresSinkError::TargetMissing { name: spec.schema.clone() });
    }
    if snapshot.row_type_exists {
        return Err(PostgresSinkError::TargetExists { name: spec.table.clone() });
    }
    match &snapshot.class_name {
        Some(name) => Err(PostgresSinkError::TargetExists { name: name.clone() }),
        None => Ok(()),
    }
}

/// Requires that none of the objects of a sink is there.
pub fn validate_absence_snapshot(
    spec: &PostgresTargetSpec,
    schema_exists: bool,
    class_name: Option<String>,
    row_type_exists: bool,
) -> (result: Result<(), PostgresSinkError>)
    ensures
        ({
            let snapshot = AbsenceSnapshot { schema_exists, class_name, row_type_exists };
            match result {
                Ok(_) => absence_fault(spec@, snapshot) is None,
                Err(error) => absence_fault(spec@, snapshot) == Some(error@),
            }
        }),
{
    validate_absence(spec, &AbsenceSnapshot { schema_exists, class_name, row_type_exists })
}

/// Why a target cannot be taken, if it cannot.
pub open spec fn discovery_fault(
    model: SpecModel,
    server: ServerIdentity,
    snapshot: AbsenceSnapshot,
) -> Option<PostgresErrorModel> {
    if names_fault(model) is Some {
        Some(PostgresErrorModel::InvalidSpec { message: names_fault(model)->0 })
    } else if !server.fsync || !server.synchronous_commit {
        Some(PostgresErrorModel::DurabilityDisabled)
    } else if !server.utf8 {
        Some(PostgresErrorModel::UnsupportedServerEncoding)
    } else if !identity_fits(model) {
        Some(
            PostgresErrorModel::InvalidSpec {
                message: "cluster system identifier and database OID must be nonzero"@,
            },
        )
    } else {
        absence_fault(model, snapshot)
    }
}

/// Why a target identity is malformed, if it is.
pub open spec fn spec_fault(model: SpecModel) -> Option<Seq<char>> {
    if names_fault(model) is Some {
        names_fault(model)
    } else if !identity_fits(model) {
        Some("cluster system identifier and database OID must be nonzero"@)
    } else {
        None
    }
}

/// Requires that the server is still the one whose identity the target has.
pub fn verify_identity(spec: &PostgresTargetSpec, server: &ServerIdentity) -> (result: Result<
    (),
    PostgresSinkError,
>)
    ensures
        match result {
            Ok(_) => {
                &&& server.system_identifier@ == spec@.system_identifier
                &&& server.database_oid == spec@.database_oid
                &&& server.fsync && server.synchronous_commit && server.utf8
            },
            Err(error) => error@ == (if server.system_identifier@ != spec@.system_identifier
                || server.database_oid != spec@.database_oid {
                PostgresErrorModel::TargetIdentityChanged
            } else if !server.fsync || !server.synchronous_commit {
                PostgresErrorModel::DurabilityDisabled
            } else {
                PostgresErrorModel::UnsupportedServerEncoding
            }) && !(server.system_identifier@ == spec@.system_identifier && server.database_oid
                == spec@.database_oid && server.fsync && server.synchronous_commit && server.utf8),
        },
{
    if !same_text(server.system_identifier.as_str(), spec.system_identifier.as_str())
        || server.database_oid != spec.database_oid {
        return Err(PostgresSinkError::TargetIdentityChanged);
    }
    if !server.fsync || !server.synchronous_commit {
        return Err(PostgresSinkError::DurabilityDisabled);
    }
    if !server.utf8 {
        return Err(PostgresSinkError::UnsupportedServerEncoding);
    }
    Ok(())
}

impl PostgresTargetSpec {
    pub fn try_new(
        sink_id: &str,
        database: &str,
        schema: &str,
        table: &str,
        system_identifier: &str,
        database_oid: u32,
    ) -> (result: Result<PostgresTargetSpec, PostgresSinkError>)
        ensures
            ({
                let model = SpecModel {
                    sink_id: sink_id@,
                    database: database@,
                    schema: schema@,
                    table: table@,
                    system_identifier: system_identifier@,
                    database_oid,
                };
                match result {
                    Ok(spec) => spec_fault(model) is None && spec@ == model,
                    Err(error) => {
                        &&& spec_fault(model) is Some
                        &&& error@ == (PostgresErrorModel::InvalidSpec {
                            message: spec_fault(model)->0,
                        })
                    },
                }
            }),
    {
        let spec: PostgresTargetSpec = PostgresTargetSpec {
            sink_id: sink_id.to_owned(),
            database: database.to_owned(),
            schema: schema.to_owned(),
            table: table.to_owned(),
            system_identifier: system_identifier.to_owned(),
            database_oid,
        };
        spec.validate()?;
        Ok(spec)
    }

    /// Validates all fields of a target identity.
    pub fn validate(&self) -> (result: Result<(), PostgresSinkError>)
        ensures
            match result {
                Ok(_) => spec_fault(self@) is None,
                Err(error) => {
                    &&& spec_fault(self@) is Some
                    &&& error@ == (PostgresErrorModel::InvalidSpec {
                        message: spec_fault(self@)->0,
                    })
                },
            },
    {
        validate_names(self)?;
        validate_identity(self)
    }

    pub fn sink_id(&self) -> (text: &str)
        ensures
            text@ == self@.sink_id,
    {
        self.sink_id.as_str()
    }

    pub fn database(&self) -> (text: &str)
        ensures
            text@ == self@.database,
    {
        self.database.as_str()
    }

    pub fn schema(&self) -> (text: &str)
        ensures
            text@ == self@.schema,
    {
        self.schema.as_str()
    }

    pub fn table(&self) -> (text: &str)
        ensures
            text@ == self@.table,
    {
        self.table.as_str()
    }

    pub fn system_identifier(&self) -> (text: &str)
        ensures
            text@ == self@.system_identifier,
    {
        self.system_identifier.as_str()
    }

    pub fn database_oid(&self) -> (oid: u32)
        ensures
            oid == self@.database_oid,
    {
        self.database_oid
    }

    pub fn hash_index(&self) -> (name: String)
        ensures
            name@ == hash_index_name(self@.sink_id),
    {
        join_two("$dogpaddle.hash.", self.sink_id.as_str())
    }

    pub fn primary_key(&self) -> (name: String)
        ensures
            name@ == primary_key_name(self@.sink_id),
    {
        join_two("$dogpaddle.pk.", self.sink_id.as_str())
    }

    /// The names of the objects that the sink owns: its table and its two indexes.
    pub fn object_names(&self) -> (names: Vec<String>)
        ensures
            views(names@) == owned_names(self@),
    {
        let mut names: Vec<String> = Vec::new();
        names.push(self.table.clone());
        names.push(self.hash_index());
        names.push(self.primary_key());
        assert(views(names@) =~= owned_names(self@));
        names
    }

    /// A copy of the identity.
    pub fn copy(&self) -> (copy: PostgresTargetSpec)
        ensures
            copy@ == self@,
    {
        PostgresTargetSpec {
            sink_id: self.sink_id.clone(),
            database: self.database.clone(),
            schema: self.schema.clone(),
            table: self.table.clone(),
            system_identifier: self.system_identifier.clone(),
            database_oid: self.database_oid,
        }
    }
}

/// What is shown of a configuration is the same whatever its password.
pub proof fn law_password_is_not_shown(left: ConfigModel, right: ConfigModel)
    requires
        left == (ConfigModel { password: left.password, ..right }),
    ensures
        shown(left) == shown(right),
{
}

proof fn lemma_ascii_bytes(text: Seq<char>)
    requires
        forall|i: int| 0 <= i < text.len() ==> (#[trigger] text[i] as u32) < 128,
    ensures
        byte_len(text) == text.len(),
    decreases text.len(),
{
    if text.len() > 0 {
        lemma_ascii_bytes(text.drop_first());
    }
}

/// The names that are derived from a valid ID of a sink are identifiers of PostgreSQL.
pub proof fn law_derived_names_fit(sink_id: Seq<char>)
    requires
        sink_id_fits(sink_id),
    ensures
        byte_len(hash_index_name(sink_id)) <= MAX_IDENTIFIER_BYTES,
        byte_len(primary_key_name(sink_id)) <= MAX_IDENTIFIER_BYTES,
{
    reveal_strlit("$dogpaddle.hash.");
    reveal_strlit("$dogpaddle.pk.");
    let hash = hash_index_name(sink_id);
    let key = primary_key_name(sink_id);
    assert forall|i: int| 0 <= i < sink_id.len() implies (#[trigger] sink_id[i] as u32) < 128 by {
        assert(id_char(sink_id[i]));
    }
    lemma_ascii_bytes(sink_id);
    assert forall|i: int| 0 <= i < hash.len() implies (#[trigger] hash[i] as u32) < 128 by {
        if i >= "$dogpaddle.hash."@.len() {
            assert(hash[i] == sink_id[i - "$dogpaddle.hash."@.len()]);
        }
    }
    assert forall|i: int| 0 <= i < key.len() implies (#[trigger] key[i] as u32) < 128 by {
        if i >= "$dogpaddle.pk."@.len() {
            assert(key[i] == sink_id[i - "$dogpaddle.pk."@.len()]);
        }
    }
    lemma_ascii_bytes(hash);
    lemma_ascii_bytes(key);
}

/// The names that a sink derives tell it apart from other sinks.
pub proof fn law_names_tell_sinks_apart(left: Seq<char>, right: Seq<char>)
    ensures
        hash_index_name(left) == hash_index_name(right) ==> left == right,
        primary_key_name(left) == primary_key_name(right) ==> left == right,
        hash_index_name(left) != primary_key_name(right),
{
    if hash_index_name(left) == hash_index_name(right) {
        crate::reading::lemma_prefix_tells("$dogpaddle.hash."@, left, right);
    }
    if primary_key_name(left) == primary_key_name(right) {
        crate::reading::lemma_prefix_tells("$dogpaddle.pk."@, left, right);
    }
    reveal_strlit("$dogpaddle.hash.");
    reveal_strlit("$dogpaddle.pk.");
    assert(hash_index_name(left)[11] == 'h');
    assert(primary_key_name(right)[11] == 'p');
}

/// A target is taken exactly where its names and the identity of its database are well formed,
/// its server makes every commit durable and keeps names in UTF-8, and its schema is there but
/// nothing in it that the sink would own.
pub proof fn law_only_safe_and_absent_targets_are_taken(
    model: SpecModel,
    server: ServerIdentity,
    snapshot: AbsenceSnapshot,
)
    ensures
        discovery_fault(model, server, snapshot) is None <==> {
            &&& spec_fault(model) is None
            &&& server.fsync && server.synchronous_commit && server.utf8
            &&& snapshot.schema_exists
            &&& snapshot.class_name is None
            &&& !snapshot.row_type_exists
        },
        absence_fault(model, snapshot) is None <==> {
            &&& snapshot.schema_exists
            &&& snapshot.class_name is None
            &&& !snapshot.row_type_exists
        },
        !snapshot.schema_exists ==> absence_fault(model, snapshot) == Some(
            PostgresErrorModel::TargetMissing { name: model.schema },
        ),
        snapshot.schema_exists && (snapshot.row_type_exists || snapshot.class_name is Some
            && snapshot.class_name->0@ == model.table) ==> absence_fault(model, snapshot) == Some(
            PostgresErrorModel::TargetExists { name: model.table },
        ),
{
}

} // verus!
