//! Where an Apache Doris sink connects, and which target is its own.

use crate::address::{is_numeric_address, numeric_address};
use crate::doris::error::{invalid_config, invalid_spec, DorisErrorModel, DorisSinkError};
use crate::postgres::config::{is_sink_id, sink_id_fits};
use crate::notation::{canonical_address, write_address};
use crate::text::{
    blank, byte_len, debug_string, debug_text, decimal, holds_char, is_blank, join_two, lowered,
    push_decimal, same_ignoring_case, text_bytes, views,
};
use vstd::prelude::*;

verus! {

pub const MAX_IDENTIFIER_BYTES: usize = 64;

/// Credentials and endpoint of one Apache Doris sink.
pub struct DorisSinkConfig {
    host: String,
    port: u16,
    database: String,
    user: String,
    password: String,
}

/// What a configuration holds.
pub ghost struct ConfigModel {
    pub host: Seq<char>,
    pub port: u16,
    pub database: Seq<char>,
    pub user: Seq<char>,
    pub password: Seq<char>,
}

impl View for DorisSinkConfig {
    type V = ConfigModel;

    closed spec fn view(&self) -> ConfigModel {
        ConfigModel {
            host: self.host@,
            port: self.port,
            database: self.database@,
            user: self.user@,
            password: self.password@,
        }
    }
}

/// Why a configuration cannot be used, if it cannot.
pub open spec fn config_fault(model: ConfigModel) -> Option<Seq<char>> {
    if !numeric_address(model.host) {
        Some("host must be a numeric IPv4 or IPv6 address"@)
    } else if model.port == 0 {
        Some("port must be nonzero"@)
    } else if blank(model.database) || model.database.contains('\0') || blank(model.user)
        || model.user.contains('\0') || model.password.contains('\0') {
        Some("invalid Doris connection fields"@)
    } else {
        None
    }
}

/// What a configuration shows of itself: everything but the password.
pub open spec fn shown(model: ConfigModel) -> Seq<char> {
    "DorisSinkConfig { host: "@ + model.host + ", port: "@ + decimal(model.port as nat)
        + ", database: "@ + debug_string(model.database) + ", user: "@ + debug_string(model.user)
        + ", password: \"[redacted]\" }"@
}

impl DorisSinkConfig {
    /// A configuration for an unencrypted connection. The host is kept in its canonical
    /// notation.
    pub fn new_unencrypted(host: &str, port: u16, database: &str, user: &str, password: &str) -> (result:
        Result<DorisSinkConfig, DorisSinkError>)
        ensures
            ({
                let model = ConfigModel {
                    host: host@,
                    port,
                    database: database@,
                    user: user@,
                    password: password@,
                };
                match result {
                    Ok(config) => config_fault(model) is None && config@ == (ConfigModel {
                        host: canonical_address(host@),
                        ..model
                    }),
                    Err(error) => {
                        &&& config_fault(model) is Some
                        &&& error@ == (DorisErrorModel::InvalidConfig {
                            message: config_fault(model)->0,
                        })
                    },
                }
            }),
    {
        if !is_numeric_address(host) {
            return Err(invalid_config("host must be a numeric IPv4 or IPv6 address"));
        }
        if port == 0 {
            return Err(invalid_config("port must be nonzero"));
        }
        if is_blank(database) || holds_char(database, '\0') || is_blank(user)
            || holds_char(user, '\0') || holds_char(password, '\0') {
            return Err(invalid_config("invalid Doris connection fields"));
        }
        Ok(
            DorisSinkConfig {
                host: write_address(host),
                port,
                database: database.to_owned(),
                user: user.to_owned(),
                password: password.to_owned(),
            },
        )
    }

    pub fn host(&self) -> (host: &str)
        ensures
            host@ == self@.host,
    {
        self.host.as_str()
    }

    pub fn port(&self) -> (port: u16)
        ensures
            port == self@.port,
    {
        self.port
    }

    pub fn database(&self) -> (database: &str)
        ensures
            database@ == self@.database,
    {
        self.database.as_str()
    }

    pub fn user(&self) -> (user: &str)
        ensures
            user@ == self@.user,
    {
        self.user.as_str()
    }

    pub fn password(&self) -> (password: &str)
        ensures
            password@ == self@.password,
    {
        self.password.as_str()
    }

    /// What may be shown of the configuration: the password is left out.
    pub fn redacted(&self) -> (text: String)
        ensures
            text@ == shown(self@),
    {
        let mut text: String = "DorisSinkConfig { host: ".to_owned();
        text.append(self.host.as_str());
        text.append(", port: ");
        push_decimal(&mut text, self.port as u64);
        text.append(", database: ");
        text.append(debug_text(self.database.as_str()).as_str());
        text.append(", user: ");
        text.append(debug_text(self.user.as_str()).as_str());
        text.append(", password: \"[redacted]\" }");
        text
    }

    /// The target that a server was found to be able to hold: the database is there, its
    /// cluster has one identity, and none of the sink's own objects is there yet.
    pub fn discover_target(
        &self,
        sink_id: &str,
        table: &str,
        database_exists: bool,
        cluster_ids: &Vec<u64>,
        existing: &Vec<String>,
    ) -> (result: Result<DorisTargetSpec, DorisSinkError>)
        ensures
            ({
                let model = SpecModel {
                    sink_id: sink_id@,
                    database: self@.database,
                    table: table@,
                    cluster_id: if cluster_ids@.len() == 1 {
                        cluster_ids@[0]
                    } else {
                        0
                    },
                };
                match result {
                    Ok(spec) => {
                        &&& discovery_fault(model, database_exists, cluster_ids@) is None
                        &&& existing@.len() == 0
                        &&& spec@ == model
                    },
                    Err(error) => match discovery_fault(model, database_exists, cluster_ids@) {
                        Some(fault) => error@ == (DorisErrorModel::InvalidSpec { message: fault }),
                        None => {
                            &&& existing@.len() > 0
                            &&& error@ == (DorisErrorModel::TargetExists { name: existing@[0]@ })
                        },
                    },
                }
            }),
    {
        let draft: DorisTargetSpec = DorisTargetSpec {
            sink_id: sink_id.to_owned(),
            database: self.database.clone(),
            table: table.to_owned(),
            cluster_id: if cluster_ids.len() == 1 {
                cluster_ids[0]
            } else {
                0
            },
        };
        draft.validate_names()?;
        if !database_exists {
            return Err(invalid_spec("target database does not exist"));
        }
        if cluster_ids.len() != 1 {
            return Err(
                invalid_spec("Doris frontend metadata does not expose one cluster identity"),
            );
        }
        draft.validate()?;
        require_absent(existing)?;
        Ok(draft)
    }
}

/// Why a server cannot hold a target, if it cannot.
pub open spec fn discovery_fault(
    model: SpecModel,
    database_exists: bool,
    cluster_ids: Seq<u64>,
) -> Option<Seq<char>> {
    if names_fault(model) is Some {
        names_fault(model)
    } else if !database_exists {
        Some("target database does not exist"@)
    } else if cluster_ids.len() != 1 {
        Some("Doris frontend metadata does not expose one cluster identity"@)
    } else {
        spec_fault(model)
    }
}

/// Requires that no object has one of the names of the sink.
pub fn require_absent(existing: &Vec<String>) -> (result: Result<(), DorisSinkError>)
    ensures
        match result {
            Ok(_) => existing@.len() == 0,
            Err(error) => existing@.len() > 0 && error@ == (DorisErrorModel::TargetExists {
                name: existing@[0]@,
            }),
        },
{
    if existing.len() > 0 {
        Err(DorisSinkError::TargetExists { name: existing[0].clone() })
    } else {
        Ok(())
    }
}

/// The identity of a target that belongs to one sink.
#[derive(Debug, PartialEq, Eq)]
pub struct DorisTargetSpec {
    sink_id: String,
    database: String,
    table: String,
    cluster_id: u64,
}

/// What a target identity holds.
pub ghost struct SpecModel {
    pub sink_id: Seq<char>,
    pub database: Seq<char>,
    pub table: Seq<char>,
    pub cluster_id: u64,
}

impl View for DorisTargetSpec {
    type V = SpecModel;

    closed spec fn view(&self) -> SpecModel {
        SpecModel {
            sink_id: self.sink_id@,
            database: self.database@,
            table: self.table@,
            cluster_id: self.cluster_id,
        }
    }
}

/// Whether a text can be an identifier of Apache Doris.
pub open spec fn identifier_fits(text: Seq<char>) -> bool {
    0 < byte_len(text) <= MAX_IDENTIFIER_BYTES && !text.contains('\0')
}

fn is_identifier(text: &str) -> (result: bool)
    ensures
        result == identifier_fits(text@),
{
    let length: usize = text_bytes(text);
    length != 0 && length <= MAX_IDENTIFIER_BYTES && !holds_char(text, '\0')
}

/// The name of the table that holds the state of a sink.
pub open spec fn state_name(sink_id: Seq<char>) -> Seq<char> {
    "$dogpaddle.state."@ + sink_id
}

/// The mark by which the state table of a sink is recognised.
pub open spec fn marker_name(sink_id: Seq<char>) -> Seq<char> {
    "dogpaddle.doris-sink.v1:"@ + sink_id
}

/// Why the names of a target cannot be used, if they cannot.
pub open spec fn names_fault(model: SpecModel) -> Option<Seq<char>> {
    if !sink_id_fits(model.sink_id) {
        Some("sink ID must contain 1–32 lowercase ASCII letters, digits, or underscores"@)
    } else if !identifier_fits(model.database) {
        Some("database must be a nonempty Doris identifier of at most 64 bytes"@)
    } else if !identifier_fits(model.table) {
        Some("table must be a nonempty Doris identifier of at most 64 bytes"@)
    } else if byte_len(state_name(model.sink_id)) > MAX_IDENTIFIER_BYTES {
        Some("derived state-table name exceeds 64 bytes"@)
    } else if lowered(model.table) == lowered(state_name(model.sink_id)) {
        Some("target view collides with the state table"@)
    } else {
        None
    }
}

/// Why a target identity is malformed, if it is.
pub open spec fn spec_fault(model: SpecModel) -> Option<Seq<char>> {
    if names_fault(model) is Some {
        names_fault(model)
    } else if model.cluster_id == 0 {
        Some("cluster identity must be nonzero"@)
    } else {
        None
    }
}

impl DorisTargetSpec {
    pub fn try_new(sink_id: &str, database: &str, table: &str, cluster_id: u64) -> (result:
        Result<DorisTargetSpec, DorisSinkError>)
        ensures
            ({
                let model = SpecModel {
                    sink_id: sink_id@,
                    database: database@,
                    table: table@,
                    cluster_id,
                };
                match result {
                    Ok(spec) => spec_fault(model) is None && spec@ == model,
                    Err(error) => {
                        &&& spec_fault(model) is Some
                        &&& error@ == (DorisErrorModel::InvalidSpec {
                            message: spec_fault(model)->0,
                        })
                    },
                }
            }),
    {
        let spec: DorisTargetSpec = DorisTargetSpec {
            sink_id: sink_id.to_owned(),
            database: database.to_owned(),
            table: table.to_owned(),
            cluster_id,
        };
        spec.validate()?;
        Ok(spec)
    }

    /// Validates all fields of a target identity.
    pub fn validate(&self) -> (result: Result<(), DorisSinkError>)
        ensures
            match result {
                Ok(_) => spec_fault(self@) is None,
                Err(error) => {
                    &&& spec_fault(self@) is Some
                    &&& error@ == (DorisErrorModel::InvalidSpec {
                        message: spec_fault(self@)->0,
                    })
                },
            },
    {
        self.validate_names()?;
        if self.cluster_id == 0 {
            return Err(invalid_spec("cluster identity must be nonzero"));
        }
        Ok(())
    }

    fn validate_names(&self) -> (result: Result<(), DorisSinkError>)
        ensures
            match result {
                Ok(_) => names_fault(self@) is None,
                Err(error) => {
                    &&& names_fault(self@) is Some
                    &&& error@ == (DorisErrorModel::InvalidSpec {
                        message: names_fault(self@)->0,
                    })
                },
            },
    {
        if !is_sink_id(self.sink_id.as_str()) {
            return Err(
                invalid_spec(
                    "sink ID must contain 1–32 lowercase ASCII letters, digits, or underscores",
                ),
            );
        }
        if !is_identifier(self.database.as_str()) {
            return Err(
                invalid_spec(
                    "database must be a nonempty Doris identifier of at most 64 bytes",
                ),
            );
        }
        if !is_identifier(self.table.as_str()) {
            return Err(
                invalid_spec("table must be a nonempty Doris identifier of at most 64 bytes"),
            );
        }
        let state: String = self.state_table();
        if text_bytes(state.as_str()) > MAX_IDENTIFIER_BYTES {
            return Err(invalid_spec("derived state-table name exceeds 64 bytes"));
        }
        if same_ignoring_case(self.table.as_str(), state.as_str()) {
            return Err(invalid_spec("target view collides with the state table"));
        }
        Ok(())
    }

    pub fn sink_id(&self) -> (text: &str)
        ensures
            text@ == self@.sink_id,
    {
        self.sink_id.as_str()
    }

    pub fn database(&self) -> (text: &str)
        ensures
            text@ == self@.database,
    {
        self.database.as_str()
    }

    pub fn table(&self) -> (text: &str)
        ensures
            text@ == self@.table,
    {
        self.table.as_str()
    }

    pub fn cluster_id(&self) -> (id: u64)
        ensures
            id == self@.cluster_id,
    {
        self.cluster_id
    }

    pub fn state_table(&self) -> (name: String)
        ensures
            name@ == state_name(self@.sink_id),
    {
        join_two("$dogpaddle.state.", self.sink_id.as_str())
    }

    pub fn marker(&self) -> (name: String)
        ensures
            name@ == marker_name(self@.sink_id),
    {
        join_two("dogpaddle.doris-sink.v1:", self.sink_id.as_str())
    }

    /// The names of the objects of this sink.
    pub fn object_names(&self) -> (names: Vec<String>)
        ensures
            views(names@) == seq![self@.table, state_name(self@.sink_id)],
    {
        let mut names: Vec<String> = Vec::new();
        names.push(self.table.clone());
        names.push(self.state_table());
        assert(views(names@) =~= seq![self@.table, state_name(self@.sink_id)]);
        names
    }
}

/// What is shown of a configuration is the same whatever its password.
pub proof fn law_password_is_not_shown(left: ConfigModel, right: ConfigModel)
    requires
        left == (ConfigModel { password: left.password, ..right }),
    ensures
        shown(left) == shown(right),
{
}

/// The names that a sink derives tell it apart from other sinks.
pub proof fn law_names_tell_sinks_apart(left: Seq<char>, right: Seq<char>)
    ensures
        state_name(left) == state_name(right) ==> left == right,
        marker_name(left) == marker_name(right) ==> left == right,
{
    if state_name(left) == state_name(right) {
        crate::reading::lemma_prefix_tells("$dogpaddle.state."@, left, right);
    }
    if marker_name(left) == marker_name(right) {
        crate::reading::lemma_prefix_tells("dogpaddle.doris-sink.v1:"@, left, right);
    }
}

} // verus!
