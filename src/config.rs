use vstd::prelude::*;

verus! {

/// The value of a string of decimal digits.
pub open spec fn digits_value(s: Seq<char>) -> int
    decreases s.len(),
{
    if s.len() == 0 {
        0
    } else {
        digits_value(s.drop_last()) * 10 + (s.last() as int - '0' as int)
    }
}

pub open spec fn all_digits(s: Seq<char>) -> bool {
    forall|i: int| 0 <= i < s.len() ==> '0' <= #[trigger] s[i] <= '9'
}

/// What a decimal integer literal denotes: an optional sign (`+`, or `-`
/// where `signed`) followed by at least one ASCII digit, and nothing else.
pub open spec fn decimal_literal(s: Seq<char>, signed: bool) -> Option<int> {
    let negative = signed && s.len() > 0 && s[0] == '-';
    let body = if s.len() > 0 && (s[0] == '+' || negative) {
        s.drop_first()
    } else {
        s
    };
    if body.len() > 0 && all_digits(body) {
        Some(
            if negative {
                -digits_value(body)
            } else {
                digits_value(body)
            },
        )
    } else {
        None
    }
}

/// A port number written in decimal.
pub open spec fn parse_port_spec(s: Seq<char>) -> Option<int> {
    match decimal_literal(s, false) {
        Some(v) => if v <= u16::MAX {
            Some(v)
        } else {
            None
        },
        None => None,
    }
}

/// A node id written in decimal.
pub open spec fn parse_id_spec(s: Seq<char>) -> Option<int> {
    match decimal_literal(s, true) {
        Some(v) => if i32::MIN <= v <= i32::MAX {
            Some(v)
        } else {
            None
        },
        None => None,
    }
}

/// Relies on `str::parse::<u16>` (`u16::from_str`): an optional `+` and
/// decimal digits whose value fits, else an error.
#[verifier::external_body]
fn parse_port(s: &str) -> (r: Option<u16>)
    ensures
        match r {
            Some(n) => parse_port_spec(s@) == Some(n as int),
            None => parse_port_spec(s@) is None,
        },
{
    s.parse::<u16>().ok()
}

/// Relies on `str::parse::<i32>` (`i32::from_str`): an optional sign and
/// decimal digits whose value fits, else an error.
#[verifier::external_body]
fn parse_id(s: &str) -> (r: Option<i32>)
    ensures
        match r {
            Some(n) => parse_id_spec(s@) == Some(n as int),
            None => parse_id_spec(s@) is None,
        },
{
    s.parse::<i32>().ok()
}

pub const DEFAULT_EUREKA_PORT: u16 = 8176;

pub const DEFAULT_HOST_PORT: u16 = 9000;

pub const DEFAULT_NODE_ID: i32 = 1;

/// The mathematical value of a node's configuration.
pub struct ConfigView {
    pub eureka_address: Seq<char>,
    pub eureka_port: int,
    pub host_address: Seq<char>,
    pub host_port: int,
    pub node_id: int,
    pub app_id: Seq<char>,
}

/// A setting that is absent takes its default; a present one is kept.
pub open spec fn text_or(v: Option<String>, default: Seq<char>) -> Seq<char> {
    match v {
        Some(s) => s@,
        None => default,
    }
}

/// A numeric setting: absent takes its default, present must parse.
pub open spec fn number_or(v: Option<String>, parse: spec_fn(Seq<char>) -> Option<int>, default: int) -> Option<int> {
    match v {
        Some(s) => parse(s@),
        None => Some(default),
    }
}

/// A node's settings: where the service registry is, where this node
/// listens, its id and its application name.
pub struct ConfigurationManager {
    eureka_address: String,
    eureka_port: u16,
    host_address: String,
    host_port: u16,
    node_id: i32,
    app_id: String,
}

impl View for ConfigurationManager {
    type V = ConfigView;

    closed spec fn view(&self) -> ConfigView {
        ConfigView {
            eureka_address: self.eureka_address@,
            eureka_port: self.eureka_port as int,
            host_address: self.host_address@,
            host_port: self.host_port as int,
            node_id: self.node_id as int,
            app_id: self.app_id@,
        }
    }
}

fn text_setting(v: Option<String>, default: &str) -> (r: String)
    ensures
        r@ == text_or(v, default@),
{
    match v {
        Some(s) => s,
        None => default.to_string(),
    }
}

impl ConfigurationManager {
    /// Builds the configuration from the settings given, each absent one
    /// taking its default (registry host `host.docker.internal`, port 8176;
    /// node id 1; host `host.docker.internal`, port 9000; application
    /// `veresiye`). `None` when a port or the node id is present and is not
    /// a decimal number of its type.
    pub fn new(
        eureka_address: Option<String>,
        eureka_port: Option<String>,
        node_id: Option<String>,
        host_address: Option<String>,
        host_port: Option<String>,
        app_id: Option<String>,
    ) -> (r: Option<ConfigurationManager>)
        ensures
            r is Some <==> (number_or(eureka_port, |s| parse_port_spec(s), DEFAULT_EUREKA_PORT as int) is Some
                && number_or(node_id, |s| parse_id_spec(s), DEFAULT_NODE_ID as int) is Some
                && number_or(host_port, |s| parse_port_spec(s), DEFAULT_HOST_PORT as int) is Some),
            r matches Some(c) ==> c@ == (ConfigView {
                eureka_address: text_or(eureka_address, "host.docker.internal"@),
                eureka_port: number_or(eureka_port, |s| parse_port_spec(s), DEFAULT_EUREKA_PORT as int).unwrap(),
                host_address: text_or(host_address, "host.docker.internal"@),
                host_port: number_or(host_port, |s| parse_port_spec(s), DEFAULT_HOST_PORT as int).unwrap(),
                node_id: number_or(node_id, |s| parse_id_spec(s), DEFAULT_NODE_ID as int).unwrap(),
                app_id: text_or(app_id, "veresiye"@),
            }),
    {
        let eureka_port: u16 = match eureka_port {
            Some(v) => match parse_port(v.as_str()) {
                Some(p) => p,
                None => return None,
            },
            None => DEFAULT_EUREKA_PORT,
        };
        let node_id: i32 = match node_id {
            Some(v) => match parse_id(v.as_str()) {
                Some(n) => n,
                None => return None,
            },
            None => DEFAULT_NODE_ID,
        };
        let host_port: u16 = match host_port {
            Some(v) => match parse_port(v.as_str()) {
                Some(p) => p,
                None => return None,
            },
            None => DEFAULT_HOST_PORT,
        };
        let eureka_address = text_setting(eureka_address, "host.docker.internal");
        let host_address = text_setting(host_address, "host.docker.internal");
        let app_id = text_setting(app_id, "veresiye");
        Some(ConfigurationManager { eureka_address, eureka_port, host_address, host_port, node_id, app_id })
    }

    pub fn get_host_port(&self) -> (r: &u16)
        ensures
            *r as int == self@.host_port,
    {
        &self.host_port
    }

    pub fn get_node_id(&self) -> (r: &i32)
        ensures
            *r as int == self@.node_id,
    {
        &self.node_id
    }

    pub fn get_eureka_host(&self) -> (r: &str)
        ensures
            r@ == self@.eureka_address,
    {
        self.eureka_address.as_str()
    }

    pub fn get_eureka_port(&self) -> (r: u16)
        ensures
            r as int == self@.eureka_port,
    {
        self.eureka_port
    }

    pub fn get_host_address(&self) -> (r: &str)
        ensures
            r@ == self@.host_address,
    {
        self.host_address.as_str()
    }

    pub fn get_app_id(&self) -> (r: &str)
        ensures
            r@ == self@.app_id,
    {
        self.app_id.as_str()
    }
}

} // verus!
