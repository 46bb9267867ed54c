use vstd::prelude::*;
use vstd::string::StringExecFns;

use crate::addr::{spec_parse_ip, IpAddress, SockAddr};
use crate::config_types::{
    inet_type_of, parse_port_value, parse_u32_value, shell_split, socket_type_of, spec_parse_port,
    spec_parse_u32, InetType, ProgArgs, SocketType,
};
use crate::error::{ctx_matches, Error, ErrorContext};
use crate::parse::{PropG, RawProperty};
use crate::span::Span;
use crate::text::str_eq;

verus! {

/// A service not yet checked: every option of a block, each possibly
/// still unset.
#[derive(Debug, Clone, PartialEq, Eq)]
pub struct ServiceOption {
    pub server: Option<String>,
    pub port: Option<u16>,
    pub socket_type: Option<SocketType>,
    pub inet_type: Option<InetType>,
    pub server_args: Option<ProgArgs>,
    pub uid: Option<u32>,
    pub listen_address: Option<IpAddress>,
}

/// The mathematical reading of a `ServiceOption`.
#[verifier::ext_equal]
pub struct OptionModel {
    pub server: Option<Seq<char>>,
    pub port: Option<u16>,
    pub socket_type: Option<SocketType>,
    pub inet_type: Option<InetType>,
    pub server_args: Option<Seq<Seq<char>>>,
    pub uid: Option<u32>,
    pub listen_address: Option<IpAddress>,
}

impl View for ServiceOption {
    type V = OptionModel;

    open spec fn view(&self) -> OptionModel {
        OptionModel {
            server: match self.server {
                Some(s) => Some(s@),
                None => None,
            },
            port: self.port,
            socket_type: self.socket_type,
            inet_type: self.inet_type,
            server_args: match self.server_args {
                Some(a) => Some(a.0.deep_view()),
                None => None,
            },
            uid: self.uid,
            listen_address: self.listen_address,
        }
    }
}

/// The all-unset partial service.
pub open spec fn empty_options() -> OptionModel {
    OptionModel {
        server: None,
        port: None,
        socket_type: None,
        inet_type: None,
        server_args: None,
        uid: None,
        listen_address: None,
    }
}

impl Default for ServiceOption {
    /// The all-unset partial service.
    fn default() -> (r: ServiceOption)
        ensures
            r@ == empty_options(),
    {
        let r = ServiceOption {
            server: None,
            port: None,
            socket_type: None,
            inet_type: None,
            server_args: None,
            uid: None,
            listen_address: None,
        };
        proof {
            assert(r@ =~= empty_options());
        }
        r
    }
}

/// Why one property of a block was refused.
pub enum CollectErr {
    /// The key names no known option.
    UnknownKey { prop: PropG },
    /// The block already set this option.
    Duplicate { prop: PropG },
    /// The value did not parse as the option's type.
    BadValue { prop: PropG, msg: Seq<char> },
}

/// The message given for a key that names no option.
pub open spec fn unknown_key_message(name: Seq<char>) -> Seq<char> {
    "Invalid key \""@ + name
        + "\". Valid keys: [\"server\", \"port\", \"socket_type\", \"inet_type\", \"server_args\", \"uid\", \"listen_address\"]"@
}

/// One property applied to a partial service: refuse unknown keys and
/// second settings, parse the value by the key's type, set the field.
pub open spec fn spec_apply(m: OptionModel, p: PropG) -> Result<OptionModel, CollectErr> {
    if p.name == "server"@ {
        if m.server is Some {
            Err(CollectErr::Duplicate { prop: p })
        } else {
            Ok(OptionModel { server: Some(p.value), ..m })
        }
    } else if p.name == "port"@ {
        if m.port is Some {
            Err(CollectErr::Duplicate { prop: p })
        } else {
            match spec_parse_port(p.value) {
                Ok(x) => Ok(OptionModel { port: Some(x), ..m }),
                Err(msg) => Err(CollectErr::BadValue { prop: p, msg }),
            }
        }
    } else if p.name == "socket_type"@ {
        if m.socket_type is Some {
            Err(CollectErr::Duplicate { prop: p })
        } else {
            match socket_type_of(p.value) {
                Some(t) => Ok(OptionModel { socket_type: Some(t), ..m }),
                None => Err(
                    CollectErr::BadValue {
                        prop: p,
                        msg: "Invalid input: must be tcp|udp (or aliases stream|dgram)"@,
                    },
                ),
            }
        }
    } else if p.name == "inet_type"@ {
        if m.inet_type is Some {
            Err(CollectErr::Duplicate { prop: p })
        } else {
            match inet_type_of(p.value) {
                Some(t) => Ok(OptionModel { inet_type: Some(t), ..m }),
                None => Err(
                    CollectErr::BadValue { prop: p, msg: "Invalid input: must be ipv4|ipv6"@ },
                ),
            }
        }
    } else if p.name == "server_args"@ {
        if m.server_args is Some {
            Err(CollectErr::Duplicate { prop: p })
        } else {
            match shell_split(p.value) {
                Some(args) => Ok(OptionModel { server_args: Some(args), ..m }),
                None => Err(
                    CollectErr::BadValue { prop: p, msg: "Invalid shell escaped string"@ },
                ),
            }
        }
    } else if p.name == "uid"@ {
        if m.uid is Some {
            Err(CollectErr::Duplicate { prop: p })
        } else {
            match spec_parse_u32(p.value) {
                Ok(x) => Ok(OptionModel { uid: Some(x), ..m }),
                Err(msg) => Err(CollectErr::BadValue { prop: p, msg }),
            }
        }
    } else if p.name == "listen_address"@ {
        if m.listen_address is Some {
            Err(CollectErr::Duplicate { prop: p })
        } else {
            match spec_parse_ip(p.value) {
                Some(a) => Ok(OptionModel { listen_address: Some(a), ..m }),
                None => Err(
                    CollectErr::BadValue { prop: p, msg: "invalid IP address syntax"@ },
                ),
            }
        }
    } else {
        Err(CollectErr::UnknownKey { prop: p })
    }
}

/// A block's properties applied in order, stopping at the first refusal.
pub open spec fn spec_collect(m: OptionModel, ps: Seq<PropG>) -> Result<OptionModel, CollectErr>
    decreases ps.len(),
{
    if ps.len() == 0 {
        Ok(m)
    } else {
        match spec_apply(m, ps[0]) {
            Err(e) => Err(e),
            Ok(m2) => spec_collect(m2, ps.drop_first()),
        }
    }
}

/// The error a refused property is reported as: a duplicate under the
/// name's span, a bad value under the value's span with the value
/// parser's message, an unknown key under the name's span with the list
/// of valid keys.
pub open spec fn collect_err_matches(e: Error, ce: CollectErr, src: Seq<char>) -> bool {
    match ce {
        CollectErr::Duplicate { prop } => {
            &&& e matches Error::DuplicateOption { option, context }
            &&& option@ == prop.name
            &&& ctx_matches(context, src, prop.name_lo, prop.name_hi, Seq::<char>::empty())
        },
        CollectErr::BadValue { prop, msg } => {
            &&& e matches Error::OptionValueParse { option, context }
            &&& option@ == prop.name
            &&& ctx_matches(context, src, prop.value_lo, prop.value_hi, msg)
        },
        CollectErr::UnknownKey { prop } => {
            &&& e matches Error::Parse { context }
            &&& ctx_matches(context, src, prop.name_lo, prop.name_hi, unknown_key_message(prop.name))
        },
    }
}

/// Spans of a property that lie inside a text of length `n`.
pub open spec fn prop_spans_wf(p: PropG, n: int) -> bool {
    &&& 0 <= p.name_lo <= p.name_hi <= n
    &&& 0 <= p.value_lo <= p.value_hi <= n
}

pub open spec fn props_spans_wf(ps: Seq<PropG>, n: int) -> bool {
    forall|k: int| 0 <= k < ps.len() ==> #[trigger] prop_spans_wf(ps[k], n)
}

impl ServiceOption {
    /// Applies one parsed property to this partial service.
    fn apply_property(&mut self, src: &Vec<char>, p: &RawProperty) -> (r: Result<(), Error>)
        requires
            prop_spans_wf(p@, src@.len() as int),
            src.len() < usize::MAX,
        ensures
            match spec_apply(old(self)@, p@) {
                Ok(m) => r is Ok && final(self)@ == m,
                Err(ce) => r matches Err(e) && collect_err_matches(e, ce, src@),
            },
    {
        if str_eq(p.name.as_str(), "server") {
            if self.server.is_some() {
                return Err(self.duplicate_err(src, p));
            }
            self.server = Some(p.value.clone());
            proof {
                assert(self@ =~= spec_apply(old(self)@, p@)->Ok_0);
            }
            Ok(())
        } else if str_eq(p.name.as_str(), "port") {
            if self.port.is_some() {
                return Err(self.duplicate_err(src, p));
            }
            match parse_port_value(p.value.as_str()) {
                Ok(x) => {
                    self.port = Some(x);
                    proof {
                        assert(self@ =~= spec_apply(old(self)@, p@)->Ok_0);
                    }
                    Ok(())
                },
                Err(m) => Err(bad_value_err(src, p, m)),
            }
        } else if str_eq(p.name.as_str(), "socket_type") {
            if self.socket_type.is_some() {
                return Err(self.duplicate_err(src, p));
            }
            match SocketType::from_str(p.value.as_str()) {
                Ok(t) => {
                    self.socket_type = Some(t);
                    proof {
                        assert(self@ =~= spec_apply(old(self)@, p@)->Ok_0);
                    }
                    Ok(())
                },
                Err(m) => Err(bad_value_err(src, p, m)),
            }
        } else if str_eq(p.name.as_str(), "inet_type") {
            if self.inet_type.is_some() {
                return Err(self.duplicate_err(src, p));
            }
            match InetType::from_str(p.value.as_str()) {
                Ok(t) => {
                    self.inet_type = Some(t);
                    proof {
                        assert(self@ =~= spec_apply(old(self)@, p@)->Ok_0);
                    }
                    Ok(())
                },
                Err(m) => Err(bad_value_err(src, p, m)),
            }
        } else if str_eq(p.name.as_str(), "server_args") {
            if self.server_args.is_some() {
                return Err(self.duplicate_err(src, p));
            }
            match ProgArgs::from_str(p.value.as_str()) {
                Ok(a) => {
                    self.server_args = Some(a);
                    proof {
                        assert(self@ =~= spec_apply(old(self)@, p@)->Ok_0);
                    }
                    Ok(())
                },
                Err(m) => Err(bad_value_err(src, p, m)),
            }
        } else if str_eq(p.name.as_str(), "uid") {
            if self.uid.is_some() {
                return Err(self.duplicate_err(src, p));
            }
            match parse_u32_value(p.value.as_str()) {
                Ok(x) => {
                    self.uid = Some(x);
                    proof {
                        assert(self@ =~= spec_apply(old(self)@, p@)->Ok_0);
                    }
                    Ok(())
                },
                Err(m) => Err(bad_value_err(src, p, m)),
            }
        } else if str_eq(p.name.as_str(), "listen_address") {
            if self.listen_address.is_some() {
                return Err(self.duplicate_err(src, p));
            }
            match crate::addr::parse_ip(p.value.as_str()) {
                Ok(a) => {
                    self.listen_address = Some(a);
                    proof {
                        assert(self@ =~= spec_apply(old(self)@, p@)->Ok_0);
                    }
                    Ok(())
                },
                Err(m) => Err(bad_value_err(src, p, m)),
            }
        } else {
            let mut msg = String::new();
            msg.append("Invalid key \"");
            msg.append(p.name.as_str());
            msg.append(
                "\". Valid keys: [\"server\", \"port\", \"socket_type\", \"inet_type\", \"server_args\", \"uid\", \"listen_address\"]",
            );
            let context = ErrorContext::new(src, p.name_span, msg);
            Err(Error::Parse { context })
        }
    }

    /// The report for an option set a second time in one block.
    fn duplicate_err(&self, src: &Vec<char>, p: &RawProperty) -> (e: Error)
        requires
            prop_spans_wf(p@, src@.len() as int),
            src.len() < usize::MAX,
        ensures
            collect_err_matches(e, CollectErr::Duplicate { prop: p@ }, src@),
    {
        let context = ErrorContext::new(src, p.name_span, String::new());
        Error::DuplicateOption { option: p.name.clone(), context }
    }

    /// Applies a whole block body to this partial service, in order.
    pub fn update_from_body(&mut self, src: &Vec<char>, props: &Vec<RawProperty>) -> (r: Result<
        (),
        Error,
    >)
        requires
            props_spans_wf(crate::parse::props_view(props@), src@.len() as int),
            src.len() < usize::MAX,
        ensures
            match spec_collect(old(self)@, crate::parse::props_view(props@)) {
                Ok(m) => r is Ok && final(self)@ == m,
                Err(ce) => r matches Err(e) && collect_err_matches(e, ce, src@),
            },
    {
        let ghost all = crate::parse::props_view(props@);
        proof {
            assert(all.skip(0) =~= all);
        }
        let mut k: usize = 0;
        while k < props.len()
            invariant
                k <= props.len(),
                all == crate::parse::props_view(props@),
                props_spans_wf(all, src@.len() as int),
                src@.len() < usize::MAX,
                spec_collect(old(self)@, all) == spec_collect(self@, all.skip(k as int)),
            decreases props.len() - k,
        {
            match self.apply_property(src, &props[k]) {
                Ok(()) => {},
                Err(e) => {
                    proof {
                        assert(all.skip(k as int)[0] == all[k as int]);
                    }
                    return Err(e);
                },
            }
            k = k + 1;
            proof {
                assert(all.skip(k - 1)[0] == all[k - 1]);
                assert(all.skip(k - 1).drop_first() =~= all.skip(k as int));
            }
        }
        proof {
            assert(all.skip(props@.len() as int) =~= Seq::<PropG>::empty());
        }
        Ok(())
    }

    /// A partial service built from one block body alone.
    pub fn from_body(src: &Vec<char>, props: &Vec<RawProperty>) -> (r: Result<ServiceOption, Error>)
        requires
            props_spans_wf(crate::parse::props_view(props@), src@.len() as int),
            src.len() < usize::MAX,
        ensures
            match spec_collect(empty_options(), crate::parse::props_view(props@)) {
                Ok(m) => r matches Ok(o) && o@ == m,
                Err(ce) => r matches Err(e) && collect_err_matches(e, ce, src@),
            },
    {
        let mut opt = ServiceOption::default();
        match opt.update_from_body(src, props) {
            Ok(()) => Ok(opt),
            Err(e) => Err(e),
        }
    }

    /// For every option this block leaves unset, takes the default
    /// block's choice, which may itself be unset.
    pub fn fill_with_defaults(&mut self, default_service: &ServiceOption)
        ensures
            final(self)@ == spec_merge(old(self)@, default_service@),
    {
        if self.server.is_none() {
            self.server = clone_opt_string(&default_service.server);
        }
        if self.port.is_none() {
            self.port = default_service.port;
        }
        if self.socket_type.is_none() {
            self.socket_type = default_service.socket_type;
        }
        if self.inet_type.is_none() {
            self.inet_type = default_service.inet_type;
        }
        if self.server_args.is_none() {
            self.server_args = clone_opt_args(&default_service.server_args);
        }
        if self.uid.is_none() {
            self.uid = default_service.uid;
        }
        if self.listen_address.is_none() {
            self.listen_address = default_service.listen_address;
        }
        proof {
            assert(self@ =~= spec_merge(old(self)@, default_service@));
        }
    }
}

/// The merge of a block's own choices with the defaults: each option
/// keeps the block's setting, or takes the default where unset.
pub open spec fn spec_merge(m: OptionModel, d: OptionModel) -> OptionModel {
    OptionModel {
        server: if m.server is Some {
            m.server
        } else {
            d.server
        },
        port: if m.port is Some {
            m.port
        } else {
            d.port
        },
        socket_type: if m.socket_type is Some {
            m.socket_type
        } else {
            d.socket_type
        },
        inet_type: if m.inet_type is Some {
            m.inet_type
        } else {
            d.inet_type
        },
        server_args: if m.server_args is Some {
            m.server_args
        } else {
            d.server_args
        },
        uid: if m.uid is Some {
            m.uid
        } else {
            d.uid
        },
        listen_address: if m.listen_address is Some {
            m.listen_address
        } else {
            d.listen_address
        },
    }
}

fn clone_opt_string(o: &Option<String>) -> (r: Option<String>)
    ensures
        match o {
            Some(s) => r matches Some(t) && t@ == s@,
            None => r is None,
        },
{
    match o {
        Some(s) => Some(s.clone()),
        None => None,
    }
}

fn clone_opt_args(o: &Option<ProgArgs>) -> (r: Option<ProgArgs>)
    ensures
        match o {
            Some(a) => r matches Some(b) && b.0.deep_view() == a.0.deep_view(),
            None => r is None,
        },
{
    match o {
        Some(a) => {
            let mut out: Vec<String> = Vec::new();
            let mut k: usize = 0;
            while k < a.0.len()
                invariant
                    k <= a.0.len(),
                    out@.len() == k,
                    forall|i: int| 0 <= i < k ==> #[trigger] out@[i]@ == a.0@[i]@,
                decreases a.0.len() - k,
            {
                out.push(a.0[k].clone());
                k = k + 1;
            }
            proof {
                assert(out.deep_view() =~= a.0.deep_view());
            }
            Some(ProgArgs(out))
        },
        None => None,
    }
}

fn bad_value_err(src: &Vec<char>, p: &RawProperty, msg: &'static str) -> (e: Error)
    requires
        prop_spans_wf(p@, src@.len() as int),
        src.len() < usize::MAX,
    ensures
        collect_err_matches(e, CollectErr::BadValue { prop: p@, msg: msg@ }, src@),
{
    let context = ErrorContext::new(src, p.value_span, msg.to_owned());
    Error::OptionValueParse { option: p.name.clone(), context }
}

/// One configured service, checked and complete.
#[derive(Debug, Clone, PartialEq, Eq)]
pub struct Service {
    pub name: String,
    pub server: String,
    pub port: u16,
    pub socket_type: SocketType,
    pub inet_type: InetType,
    pub server_args: ProgArgs,
    pub uid: Option<u32>,
    pub listen_address: Option<IpAddress>,
}

/// The mathematical reading of a `Service`.
#[verifier::ext_equal]
pub struct ServiceG {
    pub name: Seq<char>,
    pub server: Seq<char>,
    pub port: u16,
    pub socket_type: SocketType,
    pub inet_type: InetType,
    pub server_args: Seq<Seq<char>>,
    pub uid: Option<u32>,
    pub listen_address: Option<IpAddress>,
}

impl View for Service {
    type V = ServiceG;

    open spec fn view(&self) -> ServiceG {
        ServiceG {
            name: self.name@,
            server: self.server@,
            port: self.port,
            socket_type: self.socket_type,
            inet_type: self.inet_type,
            server_args: self.server_args.0.deep_view(),
            uid: self.uid,
            listen_address: self.listen_address,
        }
    }
}

/// A merged partial service made final: the required `server` and
/// `port` must be set; `socket_type`, `inet_type` and `server_args`
/// fall back to TCP, IPv4 and no arguments; `uid` and `listen_address`
/// stay optional. The failure names the first missing required option.
pub open spec fn spec_finalize(m: OptionModel, name: Seq<char>) -> Result<ServiceG, Seq<char>> {
    if m.server is None {
        Err("server"@)
    } else if m.port is None {
        Err("port"@)
    } else {
        Ok(
            ServiceG {
                name,
                server: m.server->Some_0,
                port: m.port->Some_0,
                socket_type: match m.socket_type {
                    Some(t) => t,
                    None => SocketType::Tcp,
                },
                inet_type: match m.inet_type {
                    Some(t) => t,
                    None => InetType::Ipv4,
                },
                server_args: match m.server_args {
                    Some(a) => a,
                    None => Seq::empty(),
                },
                uid: m.uid,
                listen_address: m.listen_address,
            },
        )
    }
}

/// The listening address of a service: its `listen_address` where that
/// address belongs to the service's family, the family's all-zero
/// address where none is set, and undefined where the families differ.
pub open spec fn spec_socket_addr(s: ServiceG) -> Option<SockAddr> {
    match s.listen_address {
        None => Some(
            SockAddr { ip: IpAddress::spec_unspecified(s.inet_type), port: s.port },
        ),
        Some(a) => if a.family() == s.inet_type {
            Some(SockAddr { ip: a, port: s.port })
        } else {
            None
        },
    }
}

/// The message a missing required option is reported with.
pub open spec fn missing_message(option: Seq<char>, service: Seq<char>) -> Seq<char> {
    "missing required config option \""@ + option + "\" for service \""@ + service + "\""@
}

/// The error a missing required option is reported as, under the span
/// of the whole service block.
pub open spec fn missing_err_matches(
    e: Error,
    option: Seq<char>,
    service: Seq<char>,
    lo: int,
    hi: int,
    src: Seq<char>,
) -> bool {
    &&& e matches Error::MissingRequiredOption { option: o, service: s, context }
    &&& o@ == option
    &&& s@ == service
    &&& ctx_matches(context, src, lo, hi, missing_message(option, service))
}

impl Service {
    /// Makes a merged partial service final, as `spec_finalize` says.
    pub fn from_optioned(
        opt_struct: ServiceOption,
        service_name: &str,
        src: &Vec<char>,
        span: Span,
    ) -> (r: Result<Service, Error>)
        requires
            span.lo <= span.hi <= src.len(),
            src.len() < usize::MAX,
        ensures
            match spec_finalize(opt_struct@, service_name@) {
                Ok(sg) => r matches Ok(s) && s@ == sg,
                Err(option) => r matches Err(e) && missing_err_matches(
                    e,
                    option,
                    service_name@,
                    span.lo as int,
                    span.hi as int,
                    src@,
                ),
            },
    {
        let server = match opt_struct.server {
            Some(s) => s,
            None => {
                return Err(missing_required_option("server", service_name, src, span));
            },
        };
        let port = match opt_struct.port {
            Some(p) => p,
            None => {
                return Err(missing_required_option("port", service_name, src, span));
            },
        };
        let r = Service {
            name: service_name.to_owned(),
            server,
            port,
            socket_type: match opt_struct.socket_type {
                Some(t) => t,
                None => SocketType::Tcp,
            },
            inet_type: match opt_struct.inet_type {
                Some(t) => t,
                None => InetType::Ipv4,
            },
            server_args: match opt_struct.server_args {
                Some(a) => a,
                None => ProgArgs(Vec::new()),
            },
            uid: opt_struct.uid,
            listen_address: opt_struct.listen_address,
        };
        proof {
            assert(r.server_args.0.deep_view() =~= spec_finalize(
                opt_struct@,
                service_name@,
            )->Ok_0.server_args);
            assert(r@ =~= spec_finalize(opt_struct@, service_name@)->Ok_0);
        }
        Ok(r)
    }

    /// The address this service listens on: its `listen_address`, or the
    /// family's all-zero address where unset. Defined exactly when the
    /// address, where set, belongs to the service's family; the error
    /// names the expected family, the address and the service.
    pub fn socket_addr(&self) -> (r: Result<SockAddr, Error>)
        ensures
            match spec_socket_addr(self@) {
                Some(sa) => r == Ok::<SockAddr, Error>(sa),
                None => r matches Err(e) && e matches Error::InetVersionAddressMismatch {
                    expected_type,
                    addr,
                    service_name,
                } && expected_type == self.inet_type && Some(addr) == self@.listen_address
                    && service_name@ == self.name@,
            },
    {
        match self.listen_address {
            None => Ok(
                SockAddr { ip: IpAddress::unspecified(self.inet_type), port: self.port },
            ),
            Some(a) => {
                let family_matches = match self.inet_type {
                    InetType::Ipv4 => a.is_ipv4(),
                    InetType::Ipv6 => a.is_ipv6(),
                };
                if family_matches {
                    Ok(SockAddr { ip: a, port: self.port })
                } else {
                    Err(
                        Error::InetVersionAddressMismatch {
                            expected_type: self.inet_type,
                            addr: a,
                            service_name: self.name.clone(),
                        },
                    )
                }
            },
        }
    }
}

fn missing_required_option(option: &'static str, service_name: &str, src: &Vec<char>, span: Span) -> (e:
    Error)
    requires
        span.lo <= span.hi <= src.len(),
        src.len() < usize::MAX,
    ensures
        missing_err_matches(
            e,
            option@,
            service_name@,
            span.lo as int,
            span.hi as int,
            src@,
        ),
{
    let mut msg = String::new();
    msg.append("missing required config option \"");
    msg.append(option);
    msg.append("\" for service \"");
    msg.append(service_name);
    msg.append("\"");
    let context = ErrorContext::new(src, span, msg);
    Error::MissingRequiredOption {
        option: option.to_owned(),
        service: service_name.to_owned(),
        context,
    }
}

} // verus!
