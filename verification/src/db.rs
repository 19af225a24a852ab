//! Storage: connection settings, the database's destinations, and the
//! insert that stores one record.

use crate::decimal::Decimal;
use crate::destination::{listing_text, resolved, DestinationMap};
use crate::numeral::{digit_run, run_value};
use crate::parser::{Kline, KlineView};
use crate::text::{all_digits, chars_of, digits_value, int_text, lowercase, lowercased, push_int};
use vstd::prelude::*;
use vstd::string::*;

verus! {

/// Why the storage side failed.
#[derive(Clone, Debug)]
pub enum DbError {
    Config(String),
    Connection(String),
    Serialization(String),
    SpaceDiscovery(String),
    UnknownSpace(String),
}

/// A storage error with its text as a character sequence.
pub enum DbErrorView {
    Config(Seq<char>),
    Connection(Seq<char>),
    Serialization(Seq<char>),
    SpaceDiscovery(Seq<char>),
    UnknownSpace(Seq<char>),
}

impl View for DbError {
    type V = DbErrorView;

    open spec fn view(&self) -> DbErrorView {
        match self {
            DbError::Config(s) => DbErrorView::Config(s@),
            DbError::Connection(s) => DbErrorView::Connection(s@),
            DbError::Serialization(s) => DbErrorView::Serialization(s@),
            DbError::SpaceDiscovery(s) => DbErrorView::SpaceDiscovery(s@),
            DbError::UnknownSpace(s) => DbErrorView::UnknownSpace(s@),
        }
    }
}

impl DbErrorView {
    /// The text that describes the error.
    pub open spec fn text(self) -> Seq<char> {
        match self {
            DbErrorView::Config(s) => "Configuration error: "@ + s,
            DbErrorView::Connection(s) => "Connection error: "@ + s,
            DbErrorView::Serialization(s) => "Serialization error: "@ + s,
            DbErrorView::SpaceDiscovery(s) => "Space discovery failed: "@ + s,
            DbErrorView::UnknownSpace(s) => "Unknown space: "@ + s,
        }
    }
}

impl DbError {
    /// Describes the error in words.
    pub fn message(&self) -> (r: String)
        ensures
            r@ == self@.text(),
    {
        let mut out = String::new();
        match self {
            DbError::Config(s) => {
                out.append("Configuration error: ");
                out.append(s.as_str());
            },
            DbError::Connection(s) => {
                out.append("Connection error: ");
                out.append(s.as_str());
            },
            DbError::Serialization(s) => {
                out.append("Serialization error: ");
                out.append(s.as_str());
            },
            DbError::SpaceDiscovery(s) => {
                out.append("Space discovery failed: ");
                out.append(s.as_str());
            },
            DbError::UnknownSpace(s) => {
                out.append("Unknown space: ");
                out.append(s.as_str());
            },
        }
        assert(out@ =~= self@.text());
        out
    }
}

/// Why a text is not a port number.
#[derive(Clone, Copy, Debug, PartialEq, Eq, Structural)]
pub enum PortError {
    Empty,
    InvalidDigit,
    TooLarge,
}

impl PortError {
    /// The words that describe the error.
    pub open spec fn text(self) -> Seq<char> {
        match self {
            PortError::Empty => "cannot parse integer from empty string"@,
            PortError::InvalidDigit => "invalid digit found in string"@,
            PortError::TooLarge => "number too large to fit in target type"@,
        }
    }

    /// Describes the error in words.
    pub fn describe(&self) -> (r: &'static str)
        ensures
            r@ == self.text(),
    {
        match self {
            PortError::Empty => "cannot parse integer from empty string",
            PortError::InvalidDigit => "invalid digit found in string",
            PortError::TooLarge => "number too large to fit in target type",
        }
    }
}

/// The port that a text denotes: an optional `+`, then one or more digits
/// and nothing else, with a value of at most 65535.
pub open spec fn port_outcome(s: Seq<char>) -> Result<u16, PortError> {
    let digits = if s.len() > 0 && s[0] == '+' {
        s.skip(1)
    } else {
        s
    };
    if s.len() == 0 {
        Err(PortError::Empty)
    } else if digits.len() == 0 || !all_digits(digits) {
        Err(PortError::InvalidDigit)
    } else if digits_value(digits) > u16::MAX {
        Err(PortError::TooLarge)
    } else {
        Ok(digits_value(digits) as u16)
    }
}

/// Reads a port number.
pub fn parse_port(text: &str) -> (r: Result<u16, PortError>)
    ensures
        r == port_outcome(text@),
{
    let chars = chars_of(text);
    let n = chars.len();
    if n == 0 {
        return Err(PortError::Empty);
    }
    let start: usize = if chars[0] == '+' {
        1
    } else {
        0
    };
    let end = digit_run(&chars, start);
    let ghost digits = chars@.skip(start as int);
    assert(chars@.skip(0) =~= chars@);
    if end < n || end == start {
        proof {
            if end < n {
                assert(digits[end - start] == chars@[end as int]);
            }
        }
        return Err(PortError::InvalidDigit);
    }
    proof {
        assert(digits =~= chars@.subrange(start as int, end as int));
        assert forall|i: int| 0 <= i < digits.len() implies crate::text::is_digit(
            #[trigger] digits[i],
        ) by {
            assert(digits[i] == chars@[start + i]);
        }
    }
    match run_value(&chars, start, end, 65535u128) {
        Some(v) => Ok(v as u16),
        None => Err(PortError::TooLarge),
    }
}

/// An optional string as plain text.
pub open spec fn opt_text(o: Option<String>) -> Option<Seq<char>> {
    match o {
        Some(s) => Some(s@),
        None => None,
    }
}

/// The text of a string that was given, else the default.
pub open spec fn text_or(o: Option<String>, default: Seq<char>) -> Seq<char> {
    match o {
        Some(s) => s@,
        None => default,
    }
}

/// Collects the settings of a database connection; what is left unset takes
/// its default when the configuration is built.
#[derive(Clone, Debug)]
pub struct DbConfigBuilder {
    pub host: Option<String>,
    pub port: Option<String>,
    pub username: Option<String>,
    pub password: Option<String>,
}

/// A complete database configuration.
#[derive(Clone, Debug)]
pub struct DbConfig {
    pub host: String,
    pub port: u16,
    pub username: String,
    pub password: Option<String>,
}

/// What a client needs in order to connect.
#[derive(Clone, Debug)]
pub struct ConnectionSettings {
    pub address: String,
    pub username: String,
    pub password: String,
}

impl Default for DbConfigBuilder {
    fn default() -> (r: DbConfigBuilder)
        ensures
            r.host is None,
            r.port is None,
            r.username is None,
            r.password is None,
    {
        DbConfigBuilder { host: None, port: None, username: None, password: None }
    }
}

impl DbConfigBuilder {
    /// A builder with nothing set.
    pub fn new() -> (r: DbConfigBuilder)
        ensures
            r.host is None,
            r.port is None,
            r.username is None,
            r.password is None,
    {
        DbConfigBuilder { host: None, port: None, username: None, password: None }
    }

    /// Sets the host; the other settings stay as they are.
    pub fn host(self, host: &str) -> (r: DbConfigBuilder)
        ensures
            opt_text(r.host) == Some(host@),
            r.port == self.port,
            r.username == self.username,
            r.password == self.password,
    {
        let mut b = self;
        b.host = Some(host.to_owned());
        b
    }

    /// Sets the port, as text; it is read when the configuration is built.
    pub fn port(self, port: &str) -> (r: DbConfigBuilder)
        ensures
            r.host == self.host,
            opt_text(r.port) == Some(port@),
            r.username == self.username,
            r.password == self.password,
    {
        let mut b = self;
        b.port = Some(port.to_owned());
        b
    }

    /// Sets the user name; the other settings stay as they are.
    pub fn username(self, username: &str) -> (r: DbConfigBuilder)
        ensures
            r.host == self.host,
            r.port == self.port,
            opt_text(r.username) == Some(username@),
            r.password == self.password,
    {
        let mut b = self;
        b.username = Some(username.to_owned());
        b
    }

    /// The password is optional: a configuration may be built without one.
    pub fn password(self, password: &str) -> (r: DbConfigBuilder)
        ensures
            r.host == self.host,
            r.port == self.port,
            r.username == self.username,
            opt_text(r.password) == Some(password@),
    {
        let mut b = self;
        b.password = Some(password.to_owned());
        b
    }

    /// Builds the configuration. The port defaults to `3301`, the host to
    /// `localhost` and the user to `guest`; a port that is not a number of
    /// at most 65535 is a configuration error.
    pub fn build(self) -> (r: Result<DbConfig, DbError>)
        ensures
            match port_outcome(text_or(self.port, "3301"@)) {
                Ok(port) => {
                    &&& r matches Ok(config)
                    &&& config.host@ == text_or(self.host, "localhost"@)
                    &&& config.port == port
                    &&& config.username@ == text_or(self.username, "guest"@)
                    &&& opt_text(config.password) == opt_text(self.password)
                },
                Err(e) => {
                    &&& r matches Err(error)
                    &&& error@ == DbErrorView::Config("Invalid port: "@ + e.text())
                },
            },
    {
        let port_text: String = match self.port {
            Some(p) => p,
            None => "3301".to_owned(),
        };
        let port: u16 = match parse_port(port_text.as_str()) {
            Ok(port) => port,
            Err(e) => {
                let mut msg = String::new();
                msg.append("Invalid port: ");
                msg.append(e.describe());
                assert(msg@ =~= "Invalid port: "@ + e.text());
                return Err(DbError::Config(msg));
            },
        };
        let host: String = match self.host {
            Some(h) => h,
            None => "localhost".to_owned(),
        };
        let username: String = match self.username {
            Some(u) => u,
            None => "guest".to_owned(),
        };
        Ok(DbConfig { host, port, username, password: self.password })
    }
}

/// One value of a stored tuple.
#[derive(Clone, Debug)]
pub enum Cell {
    Text(String),
    Number(Decimal),
    Integer(i64),
}

/// A value of a stored tuple with its text as a character sequence.
pub enum CellView {
    Text(Seq<char>),
    Number(Decimal),
    Integer(i64),
}

impl View for Cell {
    type V = CellView;

    open spec fn view(&self) -> CellView {
        match self {
            Cell::Text(s) => CellView::Text(s@),
            Cell::Number(d) => CellView::Number(*d),
            Cell::Integer(i) => CellView::Integer(*i),
        }
    }
}

/// A tuple as the sequence of its values.
pub open spec fn cells_view(cells: Seq<Cell>) -> Seq<CellView> {
    Seq::new(cells.len(), |i: int| cells[i]@)
}

/// One insert: the tuple to write, and the destination to write it to.
#[derive(Clone, Debug)]
pub struct InsertRequest {
    pub space_id: u32,
    pub tuple: Vec<Cell>,
}

/// An insert with its texts as character sequences.
pub struct InsertView {
    pub space_id: u32,
    pub tuple: Seq<CellView>,
}

impl View for InsertRequest {
    type V = InsertView;

    open spec fn view(&self) -> InsertView {
        InsertView { space_id: self.space_id, tuple: cells_view(self.tuple@) }
    }
}

/// What came of asking the datastore for its destinations.
pub enum Enumeration {
    /// The call itself failed.
    CallFailed(String),
    /// The reply could not be decoded as a list of `(id, name)` entries.
    DecodeFailed(String),
    /// The destinations that the datastore listed.
    Listed(Vec<(u32, String)>),
}

/// The name of the destination that holds the records of `pair`.
pub open spec fn destination_name(pair: Seq<char>) -> Seq<char> {
    "klines_"@ + lowercased(pair)
}

/// The tuple under which a record is stored: its fields in the fixed order
/// of the destination's schema.
pub open spec fn record_tuple(k: KlineView) -> Seq<CellView> {
    seq![
        CellView::Text(k.pair),
        CellView::Text(k.time_frame),
        CellView::Number(k.o),
        CellView::Number(k.h),
        CellView::Number(k.l),
        CellView::Number(k.c),
        CellView::Integer(k.utc_begin),
        CellView::Number(k.volume_bs.buy_base),
        CellView::Number(k.volume_bs.sell_base),
        CellView::Number(k.volume_bs.buy_quote),
        CellView::Number(k.volume_bs.sell_quote),
    ]
}

/// How a record is stored, given the destinations: as its tuple, in the
/// destination named after its pair; not at all where no destination has
/// that name.
pub open spec fn store_outcome(destinations: Map<Seq<char>, u32>, k: KlineView) -> Result<
    InsertView,
    DbErrorView,
> {
    let name = destination_name(k.pair);
    if destinations.contains_key(name) {
        Ok(InsertView { space_id: destinations[name], tuple: record_tuple(k) })
    } else {
        Err(DbErrorView::UnknownSpace(name))
    }
}

/// What `save` returned, with texts as character sequences.
pub open spec fn save_result_view(r: Result<InsertRequest, DbError>) -> Result<
    InsertView,
    DbErrorView,
> {
    match r {
        Ok(request) => Ok(request@),
        Err(e) => Err(e@),
    }
}

/// The database as the pipeline sees it: its destinations by name.
pub struct Database {
    pub space_ids: DestinationMap,
}

impl Database {
    /// The settings to connect with: the address is `host:port`, and a
    /// missing password is sent as the empty text.
    pub fn from_config(config: DbConfig) -> (r: Result<ConnectionSettings, DbError>)
        ensures
            r matches Ok(s) && s.address@ == config.host@ + ":"@ + int_text(config.port as int)
                && s.username@ == config.username@ && s.password@ == text_or(
                config.password,
                Seq::empty(),
            ),
    {
        let mut address = String::new();
        address.append(config.host.as_str());
        address.append(":");
        push_int(&mut address, config.port as i128);
        assert(address@ =~= config.host@ + ":"@ + int_text(config.port as int));
        let password: String = match config.password {
            Some(p) => p,
            None => String::new(),
        };
        Ok(ConnectionSettings { address, username: config.username, password })
    }

    /// Resolves the destinations from the outcome of the enumeration. A
    /// failed enumeration leaves no database to write to.
    pub fn discover_spaces(enumeration: Enumeration) -> (r: Result<DestinationMap, DbError>)
        ensures
            match enumeration {
                Enumeration::CallFailed(reason) => r matches Err(e) && e@
                    == DbErrorView::SpaceDiscovery("Failed to call get_spaces: "@ + reason@),
                Enumeration::DecodeFailed(reason) => r matches Err(e) && e@
                    == DbErrorView::Connection(reason@),
                Enumeration::Listed(listing) => r matches Ok(map) && map@ == resolved(
                    listing_text(listing@),
                ),
            },
    {
        match enumeration {
            Enumeration::CallFailed(reason) => {
                let mut msg = String::new();
                msg.append("Failed to call get_spaces: ");
                msg.append(reason.as_str());
                assert(msg@ =~= "Failed to call get_spaces: "@ + reason@);
                Err(DbError::SpaceDiscovery(msg))
            },
            Enumeration::DecodeFailed(reason) => Err(DbError::Connection(reason)),
            Enumeration::Listed(listing) => Ok(DestinationMap::from_listing(&listing)),
        }
    }

    /// The database that an enumeration gives.
    pub fn new(enumeration: Enumeration) -> (r: Result<Database, DbError>)
        ensures
            match enumeration {
                Enumeration::CallFailed(reason) => r matches Err(e) && e@
                    == DbErrorView::SpaceDiscovery("Failed to call get_spaces: "@ + reason@),
                Enumeration::DecodeFailed(reason) => r matches Err(e) && e@
                    == DbErrorView::Connection(reason@),
                Enumeration::Listed(listing) => r matches Ok(db) && db.space_ids@ == resolved(
                    listing_text(listing@),
                ),
            },
    {
        match Database::discover_spaces(enumeration) {
            Ok(space_ids) => Ok(Database { space_ids }),
            Err(e) => Err(e),
        }
    }

    /// Decides how to store one record: the insert to perform, or
    /// `UnknownSpace` with the destination's name where the record's pair has
    /// no destination, in which case there is nothing to insert.
    pub fn save(&self, data: &Kline) -> (r: Result<InsertRequest, DbError>)
        ensures
            save_result_view(r) == store_outcome(self.space_ids@, data@),
    {
        let mut space_name = String::new();
        space_name.append("klines_");
        let lower = lowercase(data.pair.as_str());
        space_name.append(lower.as_str());
        assert(space_name@ =~= destination_name(data.pair@));
        let space_id: u32 = match self.space_ids.get(&space_name) {
            Some(id) => id,
            None => {
                return Err(DbError::UnknownSpace(space_name));
            },
        };
        let mut tuple: Vec<Cell> = Vec::new();
        tuple.push(Cell::Text(data.pair.clone()));
        tuple.push(Cell::Text(data.time_frame.clone()));
        tuple.push(Cell::Number(data.o));
        tuple.push(Cell::Number(data.h));
        tuple.push(Cell::Number(data.l));
        tuple.push(Cell::Number(data.c));
        tuple.push(Cell::Integer(data.utc_begin));
        tuple.push(Cell::Number(data.volume_bs.buy_base));
        tuple.push(Cell::Number(data.volume_bs.sell_base));
        tuple.push(Cell::Number(data.volume_bs.buy_quote));
        tuple.push(Cell::Number(data.volume_bs.sell_quote));
        assert(cells_view(tuple@) =~= record_tuple(data@));
        Ok(InsertRequest { space_id, tuple })
    }

    /// What the caller of `save` is told once the insert was tried: a failed
    /// insert is a connection error with the reason given, and is not tried
    /// again.
    pub fn insert_outcome(attempt: Result<(), String>) -> (r: Result<(), DbError>)
        ensures
            match attempt {
                Ok(_) => r is Ok,
                Err(reason) => r matches Err(e) && e@ == DbErrorView::Connection(reason@),
            },
    {
        match attempt {
            Ok(_) => Ok(()),
            Err(reason) => Err(DbError::Connection(reason)),
        }
    }
}

} // verus!
