//! Tuning values of a packet source, with the value each one takes when the
//! tuning document leaves it out.

use crate::document::{entry, find, parse, yaml_tree, Node};
use crate::number::{integer_from_text, integer_in};
use vstd::prelude::*;

verus! {

/// Why a tuning document is refused.
#[derive(Debug, Clone, Copy, PartialEq, Eq, Structural)]
pub enum ConfigError {
    /// The text is no YAML document.
    Syntax,
    /// The document is neither empty nor a mapping.
    NotAMapping,
    /// A group is neither empty nor a mapping.
    InvalidGroup,
    /// A field holds a value of the wrong kind, or a number out of the
    /// field's range.
    InvalidValue,
}

/// Settings of the interception point itself.
#[derive(Debug)]
pub struct CliConfigIO {
    /// Depth of the backend's delivery queue.
    pub queue_size: u32,
    /// Size of the kernel receive buffer, in bytes.
    pub rcv_buf: i32,
    /// Size of the kernel send buffer, in bytes.
    pub snd_buf: i32,
    /// Whether locally originated traffic is intercepted, rather than
    /// forwarded traffic.
    pub local: bool,
    /// Whether a blocked connection is reset rather than silently dropped.
    /// Only meaningful when `local` is false.
    pub rst: bool,
}

/// Settings of a replay backend.
#[derive(Debug)]
pub struct CliConfigReplay {
    /// Whether delivery is paced by the capture times of the packets, rather
    /// than going as fast as possible.
    pub realtime: bool,
}

/// Settings of the delivery workers.
#[derive(Debug)]
pub struct CliConfigWorkers {
    /// Number of concurrent delivery workers.
    pub count: usize,
    /// Depth of each worker's dispatch queue.
    pub queue_size: u32,
    /// Ceiling on buffered pages over all TCP connections.
    pub tcp_max_buffered_pages_total: u32,
    /// Ceiling on buffered pages of one TCP connection.
    pub tcp_max_buffered_pages_per_conn: u32,
    /// Seconds without traffic after which a connection counts as dead.
    pub tcp_timeout: u64,
    /// Ceiling on concurrently tracked UDP flows.
    pub udp_max_streams: u32,
}

/// Locations of the rule data files.
#[derive(Debug)]
pub struct CliConfigRuleset {
    /// Path of the GeoIP file.
    pub geoip: String,
    /// Path of the GeoSite file.
    pub geosite: String,
}

/// All tuning values.
#[derive(Debug)]
pub struct CliConfig {
    pub io: CliConfigIO,
    pub workers: CliConfigWorkers,
    pub ruleset: CliConfigRuleset,
    pub replay: CliConfigReplay,
}

/// A rule data location as a sequence of characters.
pub struct RulesetPaths {
    pub geoip: Seq<char>,
    pub geosite: Seq<char>,
}

/// The tuning values as mathematical data.
pub struct ConfigValues {
    pub io: CliConfigIO,
    pub workers: CliConfigWorkers,
    pub ruleset: RulesetPaths,
    pub replay: CliConfigReplay,
}

impl View for CliConfigRuleset {
    type V = RulesetPaths;

    open spec fn view(&self) -> RulesetPaths {
        RulesetPaths { geoip: self.geoip@, geosite: self.geosite@ }
    }
}

impl View for CliConfig {
    type V = ConfigValues;

    open spec fn view(&self) -> ConfigValues {
        ConfigValues {
            io: self.io,
            workers: self.workers,
            ruleset: self.ruleset@,
            replay: self.replay,
        }
    }
}

impl CliConfigIO {
    /// The values that hold where the document says nothing.
    pub open spec fn defaults() -> CliConfigIO {
        CliConfigIO {
            queue_size: 1024,
            rcv_buf: 4194304,
            snd_buf: 4194304,
            local: true,
            rst: false,
        }
    }
}

impl CliConfigReplay {
    /// The values that hold where the document says nothing.
    pub open spec fn defaults() -> CliConfigReplay {
        CliConfigReplay { realtime: false }
    }
}

impl CliConfigWorkers {
    /// The values that hold where the document says nothing.
    pub open spec fn defaults() -> CliConfigWorkers {
        CliConfigWorkers {
            count: 4,
            queue_size: 64,
            tcp_max_buffered_pages_total: 65536,
            tcp_max_buffered_pages_per_conn: 16,
            tcp_timeout: 600,
            udp_max_streams: 4096,
        }
    }
}

impl CliConfigRuleset {
    /// The values that hold where the document says nothing.
    pub open spec fn defaults() -> RulesetPaths {
        RulesetPaths { geoip: "./geoip"@, geosite: "./geosite"@ }
    }
}

impl CliConfig {
    /// The values that hold where the document says nothing.
    pub open spec fn defaults() -> ConfigValues {
        ConfigValues {
            io: CliConfigIO::defaults(),
            workers: CliConfigWorkers::defaults(),
            ruleset: CliConfigRuleset::defaults(),
            replay: CliConfigReplay::defaults(),
        }
    }
}

impl Default for CliConfigIO {
    fn default() -> (c: Self)
        ensures
            c == CliConfigIO::defaults(),
    {
        CliConfigIO {
            queue_size: 1024,
            rcv_buf: 4194304,
            snd_buf: 4194304,
            local: true,
            rst: false,
        }
    }
}

impl Default for CliConfigReplay {
    fn default() -> (c: Self)
        ensures
            c == CliConfigReplay::defaults(),
    {
        CliConfigReplay { realtime: false }
    }
}

impl Default for CliConfigWorkers {
    fn default() -> (c: Self)
        ensures
            c == CliConfigWorkers::defaults(),
    {
        CliConfigWorkers {
            count: 4,
            queue_size: 64,
            tcp_max_buffered_pages_total: 65536,
            tcp_max_buffered_pages_per_conn: 16,
            tcp_timeout: 600,
            udp_max_streams: 4096,
        }
    }
}

impl Default for CliConfigRuleset {
    fn default() -> (c: Self)
        ensures
            c@ == CliConfigRuleset::defaults(),
    {
        CliConfigRuleset {
            geoip: "./geoip".to_owned(),
            geosite: "./geosite".to_owned(),
        }
    }
}

impl Default for CliConfig {
    fn default() -> (c: Self)
        ensures
            c@ == CliConfig::defaults(),
    {
        CliConfig {
            io: CliConfigIO::default(),
            workers: CliConfigWorkers::default(),
            ruleset: CliConfigRuleset::default(),
            replay: CliConfigReplay::default(),
        }
    }
}

/// The entries of an optional group: none where the group is left out.
pub open spec fn entries_of(group: Option<&Vec<(Node, Node)>>) -> Seq<(Node, Node)> {
    match group {
        Some(entries) => entries@,
        None => Seq::empty(),
    }
}

/// The entries of the group `name` of a document, or `None` where the group
/// is there and is neither empty nor a mapping. A document that is no mapping
/// has no groups.
pub open spec fn group(doc: Node, name: Seq<char>) -> Option<Seq<(Node, Node)>> {
    match doc {
        Node::Table(groups) => match entry(groups@, name) {
            None => Some(Seq::empty()),
            Some(Node::Null) => Some(Seq::empty()),
            Some(Node::Table(entries)) => Some(entries@),
            Some(_) => None,
        },
        _ => Some(Seq::empty()),
    }
}

/// The number of the field `name`: `default` where the group leaves the field
/// out, else the integer from `lo` to `hi` that the field holds as a number
/// or as a string, or `None` where it holds no such integer.
pub open spec fn number_field(
    entries: Seq<(Node, Node)>,
    name: Seq<char>,
    lo: int,
    hi: int,
    default: int,
) -> Option<int> {
    match entry(entries, name) {
        None => Some(default),
        Some(Node::Number(text)) => integer_in(text@, lo, hi),
        Some(Node::Text(text)) => integer_in(text@, lo, hi),
        Some(_) => None,
    }
}

/// The truth value of the field `name`: `default` where the group leaves the
/// field out, `None` where the field holds anything but a truth value.
pub open spec fn flag_field(entries: Seq<(Node, Node)>, name: Seq<char>, default: bool) -> Option<
    bool,
> {
    match entry(entries, name) {
        None => Some(default),
        Some(Node::Bool(b)) => Some(b),
        Some(_) => None,
    }
}

/// The string of the field `name`: `default` where the group leaves the field
/// out, `None` where the field holds anything but a string.
pub open spec fn text_field(
    entries: Seq<(Node, Node)>,
    name: Seq<char>,
    default: Seq<char>,
) -> Option<Seq<char>> {
    match entry(entries, name) {
        None => Some(default),
        Some(Node::Text(text)) => Some(text@),
        Some(_) => None,
    }
}

/// The `io` settings that a group gives, or `None` where a field is invalid.
pub open spec fn io_of(entries: Seq<(Node, Node)>) -> Option<CliConfigIO> {
    match (
        number_field(entries, "queue_size"@, 0, u32::MAX as int, 1024),
        number_field(entries, "rcv_buf"@, i32::MIN as int, i32::MAX as int, 4194304),
        number_field(entries, "snd_buf"@, i32::MIN as int, i32::MAX as int, 4194304),
        flag_field(entries, "local"@, true),
        flag_field(entries, "rst"@, false),
    ) {
        (Some(queue_size), Some(rcv_buf), Some(snd_buf), Some(local), Some(rst)) => Some(
            CliConfigIO {
                queue_size: queue_size as u32,
                rcv_buf: rcv_buf as i32,
                snd_buf: snd_buf as i32,
                local,
                rst,
            },
        ),
        _ => None,
    }
}

/// The `workers` settings that a group gives, or `None` where a field is
/// invalid.
pub open spec fn workers_of(entries: Seq<(Node, Node)>) -> Option<CliConfigWorkers> {
    match (
        number_field(entries, "count"@, 0, usize::MAX as int, 4),
        number_field(entries, "queue_size"@, 0, u32::MAX as int, 64),
        number_field(entries, "tcp_max_buffered_pages_total"@, 0, u32::MAX as int, 65536),
        number_field(entries, "tcp_max_buffered_pages_per_conn"@, 0, u32::MAX as int, 16),
        number_field(entries, "tcp_timeout"@, 0, u64::MAX as int, 600),
        number_field(entries, "udp_max_streams"@, 0, u32::MAX as int, 4096),
    ) {
        (Some(count), Some(queue_size), Some(total), Some(per_conn), Some(timeout), Some(udp)) => {
            Some(
                CliConfigWorkers {
                    count: count as usize,
                    queue_size: queue_size as u32,
                    tcp_max_buffered_pages_total: total as u32,
                    tcp_max_buffered_pages_per_conn: per_conn as u32,
                    tcp_timeout: timeout as u64,
                    udp_max_streams: udp as u32,
                },
            )
        },
        _ => None,
    }
}

/// The `ruleset` settings that a group gives, or `None` where a field is
/// invalid.
pub open spec fn ruleset_of(entries: Seq<(Node, Node)>) -> Option<RulesetPaths> {
    match (text_field(entries, "geoip"@, "./geoip"@), text_field(entries, "geosite"@, "./geosite"@)) {
        (Some(geoip), Some(geosite)) => Some(RulesetPaths { geoip, geosite }),
        _ => None,
    }
}

/// The `replay` settings that a group gives, or `None` where a field is
/// invalid.
pub open spec fn replay_of(entries: Seq<(Node, Node)>) -> Option<CliConfigReplay> {
    match flag_field(entries, "realtime"@, false) {
        Some(realtime) => Some(CliConfigReplay { realtime }),
        None => None,
    }
}

/// The tuning values that a document gives. Every group and every field may
/// be left out and then has its default; what the document names beyond the
/// four groups and their fields is ignored.
pub open spec fn config_of(doc: Node) -> Result<ConfigValues, ConfigError> {
    if !(doc is Null || doc is Table) {
        Err(ConfigError::NotAMapping)
    } else {
        match (group(doc, "io"@), group(doc, "workers"@), group(doc, "ruleset"@), group(doc, "replay"@)) {
            (Some(io), Some(workers), Some(ruleset), Some(replay)) => match (
                io_of(io),
                workers_of(workers),
                ruleset_of(ruleset),
                replay_of(replay),
            ) {
                (Some(io), Some(workers), Some(ruleset), Some(replay)) => Ok(
                    ConfigValues { io, workers, ruleset, replay },
                ),
                _ => Err(ConfigError::InvalidValue),
            },
            _ => Err(ConfigError::InvalidGroup),
        }
    }
}

/// The tuning values that a text gives.
pub open spec fn config_of_text(text: Seq<char>) -> Result<ConfigValues, ConfigError> {
    match yaml_tree(text) {
        Some(doc) => config_of(doc),
        None => Err(ConfigError::Syntax),
    }
}

fn find_group<'a>(doc: &'a Node, name: &str) -> (r: Result<Option<&'a Vec<(Node, Node)>>, ConfigError>)
    ensures
        match r {
            Ok(found) => group(*doc, name@) == Some(entries_of(found)),
            Err(e) => group(*doc, name@) is None && e == ConfigError::InvalidGroup,
        },
{
    match doc {
        Node::Table(groups) => match find(groups, name) {
            None => Ok(None),
            Some(Node::Null) => Ok(None),
            Some(Node::Table(entries)) => Ok(Some(entries)),
            Some(_) => Err(ConfigError::InvalidGroup),
        },
        _ => Ok(None),
    }
}

fn find_field<'a>(group: Option<&'a Vec<(Node, Node)>>, name: &str) -> (r: Option<&'a Node>)
    ensures
        match r {
            Some(node) => entry(entries_of(group), name@) == Some(*node),
            None => entry(entries_of(group), name@) is None,
        },
{
    match group {
        Some(entries) => find(entries, name),
        None => None,
    }
}

fn read_number(
    group: Option<&Vec<(Node, Node)>>,
    name: &str,
    lo: i64,
    hi: u64,
    default: i128,
) -> (r: Result<i128, ConfigError>)
    ensures
        match r {
            Ok(v) => number_field(entries_of(group), name@, lo as int, hi as int, default as int)
                == Some(v as int),
            Err(e) => number_field(entries_of(group), name@, lo as int, hi as int, default as int)
                is None && e == ConfigError::InvalidValue,
        },
{
    let read = match find_field(group, name) {
        None => Some(default),
        Some(Node::Number(text)) => integer_from_text(text.as_str(), lo, hi),
        Some(Node::Text(text)) => integer_from_text(text.as_str(), lo, hi),
        Some(_) => None,
    };
    match read {
        Some(v) => Ok(v),
        None => Err(ConfigError::InvalidValue),
    }
}

fn read_flag(group: Option<&Vec<(Node, Node)>>, name: &str, default: bool) -> (r: Result<
    bool,
    ConfigError,
>)
    ensures
        match r {
            Ok(b) => flag_field(entries_of(group), name@, default) == Some(b),
            Err(e) => flag_field(entries_of(group), name@, default) is None && e
                == ConfigError::InvalidValue,
        },
{
    match find_field(group, name) {
        None => Ok(default),
        Some(Node::Bool(b)) => Ok(*b),
        Some(_) => Err(ConfigError::InvalidValue),
    }
}

fn read_text(group: Option<&Vec<(Node, Node)>>, name: &str, default: &str) -> (r: Result<
    String,
    ConfigError,
>)
    ensures
        match r {
            Ok(text) => text_field(entries_of(group), name@, default@) == Some(text@),
            Err(e) => text_field(entries_of(group), name@, default@) is None && e
                == ConfigError::InvalidValue,
        },
{
    match find_field(group, name) {
        None => Ok(default.to_owned()),
        Some(Node::Text(text)) => Ok(text.clone()),
        Some(_) => Err(ConfigError::InvalidValue),
    }
}

impl CliConfigIO {
    /// Reads the `io` settings out of the entries of their group.
    pub fn from_group(group: Option<&Vec<(Node, Node)>>) -> (r: Result<Self, ConfigError>)
        ensures
            match r {
                Ok(c) => io_of(entries_of(group)) == Some(c),
                Err(e) => io_of(entries_of(group)) is None && e == ConfigError::InvalidValue,
            },
    {
        let queue_size = read_number(group, "queue_size", 0, u32::MAX as u64, 1024)?;
        let rcv_buf = read_number(group, "rcv_buf", i32::MIN as i64, i32::MAX as u64, 4194304)?;
        let snd_buf = read_number(group, "snd_buf", i32::MIN as i64, i32::MAX as u64, 4194304)?;
        let local = read_flag(group, "local", true)?;
        let rst = read_flag(group, "rst", false)?;
        Ok(
            CliConfigIO {
                queue_size: queue_size as u32,
                rcv_buf: rcv_buf as i32,
                snd_buf: snd_buf as i32,
                local,
                rst,
            },
        )
    }
}

impl CliConfigWorkers {
    /// Reads the `workers` settings out of the entries of their group.
    pub fn from_group(group: Option<&Vec<(Node, Node)>>) -> (r: Result<Self, ConfigError>)
        ensures
            match r {
                Ok(c) => workers_of(entries_of(group)) == Some(c),
                Err(e) => workers_of(entries_of(group)) is None && e == ConfigError::InvalidValue,
            },
    {
        let count = read_number(group, "count", 0, usize::MAX as u64, 4)?;
        let queue_size = read_number(group, "queue_size", 0, u32::MAX as u64, 64)?;
        let total = read_number(group, "tcp_max_buffered_pages_total", 0, u32::MAX as u64, 65536)?;
        let per_conn = read_number(group, "tcp_max_buffered_pages_per_conn", 0, u32::MAX as u64, 16)?;
        let timeout = read_number(group, "tcp_timeout", 0, u64::MAX, 600)?;
        let udp = read_number(group, "udp_max_streams", 0, u32::MAX as u64, 4096)?;
        Ok(
            CliConfigWorkers {
                count: count as usize,
                queue_size: queue_size as u32,
                tcp_max_buffered_pages_total: total as u32,
                tcp_max_buffered_pages_per_conn: per_conn as u32,
                tcp_timeout: timeout as u64,
                udp_max_streams: udp as u32,
            },
        )
    }
}

impl CliConfigRuleset {
    /// Reads the `ruleset` settings out of the entries of their group.
    pub fn from_group(group: Option<&Vec<(Node, Node)>>) -> (r: Result<Self, ConfigError>)
        ensures
            match r {
                Ok(c) => ruleset_of(entries_of(group)) == Some(c@),
                Err(e) => ruleset_of(entries_of(group)) is None && e == ConfigError::InvalidValue,
            },
    {
        let geoip = read_text(group, "geoip", "./geoip")?;
        let geosite = read_text(group, "geosite", "./geosite")?;
        Ok(CliConfigRuleset { geoip, geosite })
    }
}

impl CliConfigReplay {
    /// Reads the `replay` settings out of the entries of their group.
    pub fn from_group(group: Option<&Vec<(Node, Node)>>) -> (r: Result<Self, ConfigError>)
        ensures
            match r {
                Ok(c) => replay_of(entries_of(group)) == Some(c),
                Err(e) => replay_of(entries_of(group)) is None && e == ConfigError::InvalidValue,
            },
    {
        let realtime = read_flag(group, "realtime", false)?;
        Ok(CliConfigReplay { realtime })
    }
}

impl CliConfig {
    /// Reads the tuning values out of a document.
    pub fn from_document(doc: &Node) -> (r: Result<Self, ConfigError>)
        ensures
            match r {
                Ok(c) => config_of(*doc) == Ok::<ConfigValues, ConfigError>(c@),
                Err(e) => config_of(*doc) == Err::<ConfigValues, ConfigError>(e),
            },
    {
        match doc {
            Node::Null => {},
            Node::Table(_) => {},
            _ => {
                return Err(ConfigError::NotAMapping);
            },
        }
        let io = find_group(doc, "io");
        let workers = find_group(doc, "workers");
        let ruleset = find_group(doc, "ruleset");
        let replay = find_group(doc, "replay");
        match (io, workers, ruleset, replay) {
            (Ok(io), Ok(workers), Ok(ruleset), Ok(replay)) => {
                let io = CliConfigIO::from_group(io);
                let workers = CliConfigWorkers::from_group(workers);
                let ruleset = CliConfigRuleset::from_group(ruleset);
                let replay = CliConfigReplay::from_group(replay);
                match (io, workers, ruleset, replay) {
                    (Ok(io), Ok(workers), Ok(ruleset), Ok(replay)) => Ok(
                        CliConfig { io, workers, ruleset, replay },
                    ),
                    _ => Err(ConfigError::InvalidValue),
                }
            },
            _ => Err(ConfigError::InvalidGroup),
        }
    }
}

/// Reads the tuning values out of a YAML text.
pub fn load_config_from_string(yaml_str: &str) -> (r: Result<CliConfig, ConfigError>)
    ensures
        match r {
            Ok(c) => config_of_text(yaml_str@) == Ok::<ConfigValues, ConfigError>(c@),
            Err(e) => config_of_text(yaml_str@) == Err::<ConfigValues, ConfigError>(e),
        },
{
    match parse(yaml_str) {
        Some(doc) => CliConfig::from_document(&doc),
        None => Err(ConfigError::Syntax),
    }
}

/// A document that says nothing gives every default.
pub proof fn lemma_silent_document_gives_defaults(doc: Node)
    requires
        doc is Null || (doc matches Node::Table(groups) && groups@.len() == 0),
    ensures
        config_of(doc) == Ok::<ConfigValues, ConfigError>(CliConfig::defaults()),
{
}

} // verus!
