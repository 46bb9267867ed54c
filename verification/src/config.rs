use vstd::prelude::*;
use vstd::string::StringExecFns;

use crate::addr::{ip_text, spec_ip_text};
use crate::config_types::{shell_join, SocketType};
use crate::error::Error;
use crate::service::{Service, ServiceG};
use crate::text::{dec_digits, dec_string, str_eq};

verus! {

/// The configuration syntax one service writes back as: its block,
/// with every option it carries spelled out, and the optional options
/// it does not carry left out. Nothing where its arguments cannot be
/// shell-quoted.
pub open spec fn spec_service_text(s: ServiceG) -> Option<Seq<char>> {
    match shell_join(s.server_args) {
        None => None,
        Some(args_text) => Some(
            "service "@ + s.name + "\n{\n    server = "@ + s.server + "\n    port = "@
                + dec_digits(s.port as int) + "\n    socket_type = "@ + crate::config_types::socket_type_text(
                s.socket_type,
            ) + "\n    inet_type = "@ + crate::config_types::inet_type_text(s.inet_type) + (
            if s.server_args.len() > 0 {
                "\n    server_args = "@ + args_text
            } else {
                Seq::<char>::empty()
            }) + (match s.uid {
                Some(u) => "\n    uid = "@ + dec_digits(u as int),
                None => Seq::<char>::empty(),
            }) + (match s.listen_address {
                Some(a) => "\n    listen_address = "@ + spec_ip_text(a),
                None => Seq::<char>::empty(),
            }) + "\n}\n"@,
        ),
    }
}

/// The configuration syntax a whole service list writes back as: the
/// blocks in order.
pub open spec fn spec_config_text(svcs: Seq<ServiceG>) -> Option<Seq<char>>
    decreases svcs.len(),
{
    if svcs.len() == 0 {
        Some(Seq::empty())
    } else {
        match spec_service_text(svcs[0]) {
            None => None,
            Some(t) => match spec_config_text(svcs.drop_first()) {
                None => None,
                Some(rest) => Some(t + rest),
            },
        }
    }
}

#[verifier::rlimit(100)]
fn service_text(s: &Service) -> (r: Option<String>)
    ensures
        match spec_service_text(s@) {
            Some(t) => r matches Some(out) && out@ == t,
            None => r is None,
        },
{
    let args_text = match s.server_args.to_shell_text() {
        Some(t) => t,
        None => {
            return None;
        },
    };
    let mut out = String::new();
    out.append("service ");
    out.append(s.name.as_str());
    out.append("\n{\n    server = ");
    out.append(s.server.as_str());
    out.append("\n    port = ");
    let port_text = dec_string(s.port as usize);
    out.append(port_text.as_str());
    out.append("\n    socket_type = ");
    match s.socket_type {
        SocketType::Tcp => out.append("tcp"),
        SocketType::Udp => out.append("udp"),
    }
    out.append("\n    inet_type = ");
    match s.inet_type {
        crate::config_types::InetType::Ipv4 => out.append("ipv4"),
        crate::config_types::InetType::Ipv6 => out.append("ipv6"),
    }
    if s.server_args.0.len() > 0 {
        out.append("\n    server_args = ");
        out.append(args_text.as_str());
    }
    match &s.uid {
        Some(u) => {
            out.append("\n    uid = ");
            let uid_text = dec_string(*u as usize);
            out.append(uid_text.as_str());
        },
        None => {},
    }
    match &s.listen_address {
        Some(a) => {
            out.append("\n    listen_address = ");
            let addr_text = ip_text(a);
            out.append(addr_text.as_str());
        },
        None => {},
    }
    out.append("\n}\n");
    proof {
        assert(out@ =~= spec_service_text(s@)->Some_0);
    }
    Some(out)
}

/// The readings of a service list.
pub open spec fn services_view(s: Seq<Service>) -> Seq<ServiceG> {
    s.map_values(|x: Service| x@)
}

/// No two services share one name.
pub open spec fn names_unique(s: Seq<ServiceG>) -> bool {
    forall|i: int, j: int| 0 <= i < j < s.len() ==> s[i].name != s[j].name
}

/// Some service in the list bears this name.
pub open spec fn contains_name(s: Seq<ServiceG>, n: Seq<char>) -> bool {
    exists|i: int| 0 <= i < s.len() && s[i].name == n
}

/// The services of one configuration, in the order their blocks stand
/// in the text, with no name given twice.
#[derive(Debug, Default)]
pub struct Config {
    services: Vec<Service>,
}

impl View for Config {
    type V = Seq<ServiceG>;

    closed spec fn view(&self) -> Seq<ServiceG> {
        services_view(self.services@)
    }
}

impl Config {
    /// Every name is unique across the configuration.
    pub open spec fn wf(self) -> bool {
        names_unique(self@)
    }

    /// An empty configuration.
    pub fn new() -> (r: Config)
        ensures
            r@ == Seq::<ServiceG>::empty(),
            r.wf(),
    {
        let r = Config { services: Vec::new() };
        proof {
            assert(r@ =~= Seq::<ServiceG>::empty());
        }
        r
    }

    /// Whether a service of this name is already configured.
    pub fn has_service(&self, name: &str) -> (r: bool)
        ensures
            r == contains_name(self@, name@),
    {
        let mut i: usize = 0;
        while i < self.services.len()
            invariant
                i <= self.services.len(),
                self@ == services_view(self.services@),
                forall|k: int| 0 <= k < i ==> self@[k].name != name@,
            decreases self.services.len() - i,
        {
            if str_eq(self.services[i].name.as_str(), name) {
                proof {
                    assert(self@[i as int].name == name@);
                }
                return true;
            }
            i = i + 1;
        }
        false
    }

    /// Appends a service whose name is still free.
    pub fn add_service(&mut self, service: Service) -> (r: Result<(), Error>)
        requires
            !contains_name(old(self)@, service@.name),
        ensures
            r is Ok,
            final(self)@ == old(self)@.push(service@),
            old(self).wf() ==> final(self).wf(),
    {
        self.services.push(service);
        proof {
            assert(self@ =~= old(self)@.push(service@));
            if old(self).wf() {
                assert forall|i: int, j: int| 0 <= i < j < self@.len() implies self@[i].name
                    != self@[j].name by {
                    if j == self@.len() - 1 {
                        assert(!(0 <= i < old(self)@.len() && old(self)@[i].name
                            == service@.name));
                    }
                }
            }
        }
        Ok(())
    }

    /// How many services are configured.
    pub fn len(&self) -> (r: usize)
        ensures
            r == self@.len(),
    {
        self.services.len()
    }

    /// The service at one position of the block order.
    pub fn get(&self, i: usize) -> (r: &Service)
        requires
            i < self@.len(),
        ensures
            r@ == self@[i as int],
    {
        &self.services[i]
    }

    /// The configured services, in block order.
    pub fn services(&self) -> (r: &[Service])
        ensures
            services_view(r@) == self@,
            r@.len() == self@.len(),
    {
        self.services.as_slice()
    }

    /// Writes the configuration back as configuration syntax, one block
    /// per service with its options spelled out; reading that text
    /// gives the same services again. Nothing where an argument cannot
    /// be shell-quoted.
    pub fn to_text(&self) -> (r: Option<String>)
        ensures
            match spec_config_text(self@) {
                Some(t) => r matches Some(out) && out@ == t,
                None => r is None,
            },
    {
        let mut out = String::new();
        let mut i: usize = 0;
        let n = self.services.len();
        proof {
            assert(self@.skip(0) =~= self@);
        }
        while i < n
            invariant
                i <= n,
                n == self.services.len(),
                self@ == services_view(self.services@),
                match spec_config_text(self@) {
                    Some(t) => spec_config_text(self@.skip(i as int)) matches Some(rest) && t
                        == out@ + rest,
                    None => spec_config_text(self@.skip(i as int)) is None,
                },
            decreases n - i,
        {
            proof {
                assert(self@.skip(i as int)[0] == self@[i as int]);
                assert(self@.skip(i as int).drop_first() =~= self@.skip(i + 1));
            }
            match service_text(&self.services[i]) {
                Some(t) => {
                    out.append(t.as_str());
                },
                None => {
                    return None;
                },
            }
            i = i + 1;
        }
        proof {
            assert(self@.skip(n as int) =~= Seq::<ServiceG>::empty());
            match spec_config_text(self@) {
                Some(t) => {
                    assert(out@ + Seq::<char>::empty() =~= out@);
                },
                None => {},
            }
        }
        Some(out)
    }
}

} // verus!
