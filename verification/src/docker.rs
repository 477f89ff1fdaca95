//! Docker container listings and details: the library's own model of what the
//! daemon reports, and the verified mapping to the response bodies.

use vstd::prelude::*;

use crate::api::{ApiError, STATUS_BAD_GATEWAY, STATUS_BAD_REQUEST, STATUS_SERVICE_UNAVAILABLE};
use crate::order::{dedup, dedup_vec, reversed, lex_le, lex_le_str, opt_lex_le, opt_lex_le_str, opt_view, sort_stable, sort_stable_vec, views, SortKey, ViewEq};
use crate::text::{chars_of, debug_str, debug_text, find_char, first_index_of, join, join_strings, parse_unsigned, parse_unsigned_chars, parse_unsigned_str, starts_with, starts_with_str, str_eq, string_from_chars, string_views, strip_leading, strip_leading_str, take_chars, take_chars_str};

verus! {

// ---------------------------------------------------------------------------
// Shared helpers
// ---------------------------------------------------------------------------

/// The items of an optional list, none when absent.
pub open spec fn opt_list<T>(o: Option<Vec<T>>) -> Seq<T> {
    match o {
        Some(v) => v@,
        None => Seq::empty(),
    }
}

/// The text of an optional string, empty when absent.
pub open spec fn opt_text(o: Option<String>) -> Seq<char> {
    match o {
        Some(s) => s@,
        None => Seq::empty(),
    }
}

/// An optional text with the empty text treated as absent.
pub open spec fn nonempty(o: Option<Seq<char>>) -> Option<Seq<char>> {
    match o {
        Some(s) => if s.len() > 0 {
            Some(s)
        } else {
            None
        },
        None => None,
    }
}

fn opt_string(o: Option<String>) -> (r: String)
    ensures
        r@ == opt_text(o),
{
    match o {
        Some(s) => s,
        None => String::new(),
    }
}

fn nonempty_string(o: Option<String>) -> (r: Option<String>)
    ensures
        opt_view(r) == nonempty(opt_view(o)),
{
    match o {
        Some(s) => if s.as_str().unicode_len() > 0 {
            Some(s)
        } else {
            None
        },
        None => None,
    }
}

/// The name shown for a container: Docker's name without its leading slashes,
/// or, when that is absent or empty, the first 12 characters of the id.
pub open spec fn display_name(name: Option<Seq<char>>, id: Seq<char>) -> Seq<char> {
    let stripped = match name {
        Some(n) => Some(strip_leading(n, '/')),
        None => None,
    };
    match nonempty(stripped) {
        Some(n) => n,
        None => take_chars(id, 12),
    }
}

fn display_name_of(name: Option<String>, id: &String) -> (r: String)
    ensures
        r@ == display_name(opt_view(name), id@),
{
    match name {
        Some(n) => {
            let stripped = strip_leading_str(n.as_str(), '/');
            if stripped.as_str().unicode_len() > 0 {
                stripped
            } else {
                take_chars_str(id.as_str(), 12)
            }
        },
        None => take_chars_str(id.as_str(), 12),
    }
}

/// The parsed 16-bit value of an optional decimal text.
pub open spec fn opt_port(o: Option<String>) -> Option<u16> {
    match o {
        Some(p) => match parse_unsigned(p@, 65535) {
            Some(n) => Some(n as u16),
            None => None,
        },
        None => None,
    }
}

fn opt_port_of(o: Option<String>) -> (r: Option<u16>)
    ensures
        r == opt_port(o),
{
    match o {
        Some(p) => match parse_unsigned_str(p.as_str(), 65535) {
            Some(n) => Some(n as u16),
            None => None,
        },
        None => None,
    }
}

/// Order on optional ports: absent first.
pub open spec fn opt_u16_le(a: Option<u16>, b: Option<u16>) -> bool {
    match (a, b) {
        (None, _) => true,
        (Some(_), None) => false,
        (Some(x), Some(y)) => x <= y,
    }
}

fn opt_u16_le_exec(a: Option<u16>, b: Option<u16>) -> (r: bool)
    ensures
        r == opt_u16_le(a, b),
{
    match (a, b) {
        (None, _) => true,
        (Some(_), None) => false,
        (Some(x), Some(y)) => x <= y,
    }
}

/// Strict lexicographic order on text.
pub open spec fn lex_lt(a: Seq<char>, b: Seq<char>) -> bool {
    lex_le(a, b) && a != b
}

fn lex_lt_str(a: &str, b: &str) -> (r: bool)
    ensures
        r == lex_lt(a@, b@),
{
    lex_le_str(a, b) && !str_eq(a, b)
}

fn opt_str_eq(a: &Option<String>, b: &Option<String>) -> (r: bool)
    ensures
        r == (opt_view(*a) == opt_view(*b)),
{
    match (a, b) {
        (None, None) => true,
        (Some(x), Some(y)) => str_eq(x.as_str(), y.as_str()),
        _ => false,
    }
}

// ---------------------------------------------------------------------------
// Container list
// ---------------------------------------------------------------------------

/// A port of a container as the daemon's list reports it.
pub struct PortSummary {
    pub private_port: u16,
    pub public_port: Option<u16>,
    /// `tcp`, `udp` or `sctp`, as the daemon spells it.
    pub typ: Option<String>,
}

/// A container as the daemon's list reports it.
pub struct ContainerSummary {
    pub id: Option<String>,
    pub names: Option<Vec<String>>,
    pub image: Option<String>,
    pub state: Option<String>,
    pub status: Option<String>,
    /// Creation time, Unix epoch seconds.
    pub created: Option<i64>,
    pub ports: Option<Vec<PortSummary>>,
}

/// A published port mapping on a container.
#[derive(Debug)]
pub struct PortDto {
    pub private: u16,
    pub public: Option<u16>,
    pub proto: String,
}

pub struct PortDtoView {
    pub private: u16,
    pub public: Option<u16>,
    pub proto: Seq<char>,
}

impl View for PortDto {
    type V = PortDtoView;

    open spec fn view(&self) -> PortDtoView {
        PortDtoView { private: self.private, public: self.public, proto: self.proto@ }
    }
}

impl SortKey for PortDto {
    /// The order of the tuple `(private, public, proto)`.
    open spec fn le_view(a: PortDtoView, b: PortDtoView) -> bool {
        ||| a.private < b.private
        ||| a.private == b.private && a.public != b.public && opt_u16_le(a.public, b.public)
        ||| a.private == b.private && a.public == b.public && lex_le(a.proto, b.proto)
    }

    fn key_le(&self, other: &Self) -> (r: bool) {
        if self.private != other.private {
            self.private < other.private
        } else if self.public != other.public {
            opt_u16_le_exec(self.public, other.public)
        } else {
            lex_le_str(self.proto.as_str(), other.proto.as_str())
        }
    }
}

impl ViewEq for PortDto {
    fn view_eq(&self, other: &Self) -> (r: bool) {
        let r = self.private == other.private && self.public == other.public && str_eq(
            self.proto.as_str(),
            other.proto.as_str(),
        );
        proof {
            if self.private == other.private && self.public == other.public && self.proto@
                == other.proto@ {
                assert(self@ == other@);
            }
        }
        r
    }
}

/// One row of the container list.
#[derive(Debug)]
pub struct ContainerDto {
    pub id: String,
    pub name: String,
    pub image: String,
    pub state: String,
    pub status: String,
    pub created: i64,
    pub ports: Vec<PortDto>,
}

pub struct ContainerDtoView {
    pub id: Seq<char>,
    pub name: Seq<char>,
    pub image: Seq<char>,
    pub state: Seq<char>,
    pub status: Seq<char>,
    pub created: i64,
    pub ports: Seq<PortDtoView>,
}

impl View for ContainerDto {
    type V = ContainerDtoView;

    open spec fn view(&self) -> ContainerDtoView {
        ContainerDtoView {
            id: self.id@,
            name: self.name@,
            image: self.image@,
            state: self.state@,
            status: self.status@,
            created: self.created,
            ports: views(self.ports@),
        }
    }
}

impl SortKey for ContainerDto {
    /// Newest first.
    open spec fn le_view(a: ContainerDtoView, b: ContainerDtoView) -> bool {
        a.created >= b.created
    }

    fn key_le(&self, other: &Self) -> (r: bool) {
        self.created >= other.created
    }
}

/// The view of a listed port: the protocol defaults to `tcp`.
pub open spec fn port_summary_view(p: PortSummary) -> PortDtoView {
    PortDtoView {
        private: p.private_port,
        public: p.public_port,
        proto: match p.typ {
            Some(t) => t@,
            None => "tcp"@,
        },
    }
}

/// The views of the listed ports, in the daemon's order.
pub open spec fn summary_port_views(ports: Option<Vec<PortSummary>>) -> Seq<PortDtoView> {
    match ports {
        Some(ps) => ps@.map_values(|p: PortSummary| port_summary_view(p)),
        None => Seq::empty(),
    }
}

/// The first of an optional list of names.
pub open spec fn first_name(names: Option<Vec<String>>) -> Option<Seq<char>> {
    match names {
        Some(ns) => if ns@.len() > 0 {
            Some(ns@[0]@)
        } else {
            None
        },
        None => None,
    }
}

/// The row that the list shows for a container: ports are the distinct
/// `(private, public, proto)` mappings in ascending order; a missing state
/// reads `unknown`, other missing texts are empty, a missing time is 0.
pub open spec fn container_row(c: ContainerSummary) -> ContainerDtoView {
    let id = opt_text(c.id);
    let ports = summary_port_views(c.ports);
    ContainerDtoView {
        id: id,
        name: display_name(first_name(c.names), id),
        image: opt_text(c.image),
        state: match c.state {
            Some(s) => s@,
            None => "unknown"@,
        },
        status: opt_text(c.status),
        created: match c.created {
            Some(t) => t,
            None => 0,
        },
        ports: dedup(sort_stable::<PortDto>(ports)),
    }
}

fn first_of(names: Option<Vec<String>>) -> (r: Option<String>)
    ensures
        opt_view(r) == first_name(names),
{
    match names {
        Some(mut ns) => if ns.len() > 0 {
            Some(ns.remove(0))
        } else {
            None
        },
        None => None,
    }
}

fn summary_ports(ports: Option<Vec<PortSummary>>) -> (r: Vec<PortDto>)
    ensures
        views(r@) == dedup(sort_stable::<PortDto>(summary_port_views(ports))),
{
    let ghost input = summary_port_views(ports);
    let list = match ports {
        Some(ps) => ps,
        None => Vec::new(),
    };
    let mut rows: Vec<PortDto> = Vec::new();
    let ghost all = list@;
    let n = list.len();
    let mut rev = reversed(list);
    while rev.len() > 0
        invariant
            rows@.len() + rev@.len() == n,
            n == all.len(),
            forall|k: int| 0 <= k < rev@.len() ==> #[trigger] rev@[k] == all[n - 1 - k],
            forall|k: int| 0 <= k < rows@.len() ==> #[trigger] rows@[k]@ == port_summary_view(all[k]),
        decreases rev@.len(),
    {
        let p = rev.pop().unwrap();
        let proto = match p.typ {
            Some(t) => t,
            None => {
                proof {
                    reveal_strlit("tcp");
                }
                "tcp".to_owned()
            },
        };
        rows.push(PortDto { private: p.private_port, public: p.public_port, proto });
    }
    assert(views(rows@) =~= input);
    let sorted = sort_stable_vec(rows);
    dedup_vec(sorted)
}

impl ContainerDto {
    /// The list row for a container.
    pub fn from_summary(c: ContainerSummary) -> (r: ContainerDto)
        ensures
            r@ == container_row(c),
            r.status@ == (match c.status {
                Some(s) => s@,
                None => Seq::<char>::empty(),
            }),
            r.id@ == (match c.id {
                Some(s) => s@,
                None => Seq::<char>::empty(),
            }),
            r.image@ == (match c.image {
                Some(s) => s@,
                None => Seq::<char>::empty(),
            }),
            r.created == (match c.created {
                Some(t) => t,
                None => 0i64,
            }),
    {
        let id = opt_string(c.id);
        let name = display_name_of(first_of(c.names), &id);
        let state = match c.state {
            Some(s) => s,
            None => "unknown".to_owned(),
        };
        let created = match c.created {
            Some(t) => t,
            None => 0,
        };
        let ports = summary_ports(c.ports);
        ContainerDto {
            id,
            name,
            image: opt_string(c.image),
            state,
            status: opt_string(c.status),
            created,
            ports,
        }
    }
}

/// The body of the container list endpoint.
pub struct ContainersResponse {
    /// Whether the Docker daemon was reachable.
    pub available: bool,
    /// Error detail when the daemon was not reachable.
    pub error: Option<String>,
    pub containers: Vec<ContainerDto>,
}

/// The list body when the daemon cannot be reached: no containers and the
/// reason.
pub fn unavailable(message: &str) -> (r: ContainersResponse)
    ensures
        !r.available,
        opt_view(r.error) == Some(message@),
        r.containers@.len() == 0,
{
    ContainersResponse { available: false, error: Some(message.to_owned()), containers: Vec::new() }
}

/// The message of the list body when no Docker client could be set up.
pub open spec fn client_missing_text() -> Seq<char> {
    "Docker client was not initialised"@
}

/// The list body when no Docker client could be set up.
pub fn client_missing_listing() -> (r: ContainersResponse)
    ensures
        !r.available,
        opt_view(r.error) == Some(client_missing_text()),
        r.containers@.len() == 0,
{
    unavailable("Docker client was not initialised")
}

/// The list body for the daemon's answer: every container's row, newest
/// first, rows created at the same time keeping the daemon's order.
pub fn containers_listing(list: Vec<ContainerSummary>) -> (r: ContainersResponse)
    ensures
        r.available,
        r.error is None,
        views(r.containers@) == sort_stable::<ContainerDto>(list@.map_values(|c: ContainerSummary| container_row(c))),
{
    let ghost all = list@;
    let n = list.len();
    let mut rev = reversed(list);
    let mut rows: Vec<ContainerDto> = Vec::new();
    while rev.len() > 0
        invariant
            rows@.len() + rev@.len() == n,
            n == all.len(),
            forall|k: int| 0 <= k < rev@.len() ==> #[trigger] rev@[k] == all[n - 1 - k],
            forall|k: int| 0 <= k < rows@.len() ==> #[trigger] rows@[k]@ == container_row(all[k]),
        decreases rev@.len(),
    {
        let c = rev.pop().unwrap();
        rows.push(ContainerDto::from_summary(c));
    }
    assert(views(rows@) =~= all.map_values(|c: ContainerSummary| container_row(c)));
    ContainersResponse { available: true, error: None, containers: sort_stable_vec(rows) }
}

} // verus!
verus! {

// ---------------------------------------------------------------------------
// Container details
// ---------------------------------------------------------------------------

/// One host binding of a container port.
pub struct PortBinding {
    pub host_ip: Option<String>,
    pub host_port: Option<String>,
}

/// One entry of the daemon's port map: a key such as `80/tcp` and its host
/// bindings (none for an exposed-only port).
pub struct PortMapping {
    pub key: String,
    pub bindings: Option<Vec<PortBinding>>,
}

/// A filesystem mount as the daemon reports it.
pub struct MountPoint {
    pub typ: Option<String>,
    pub name: Option<String>,
    pub source: Option<String>,
    pub destination: Option<String>,
    pub mode: Option<String>,
    pub rw: Option<bool>,
}

/// The container's attachment to one network, keyed by the network's name.
pub struct Endpoint {
    pub name: String,
    pub ip_address: Option<String>,
    pub gateway: Option<String>,
    pub mac_address: Option<String>,
}

/// A container label.
#[derive(Debug)]
pub struct Label {
    pub key: String,
    pub value: String,
}

/// The run state of a container as the daemon reports it.
pub struct ContainerState {
    pub status: Option<String>,
    pub exit_code: Option<i64>,
    pub started_at: Option<String>,
    pub finished_at: Option<String>,
}

/// The configuration a container was created with.
pub struct ContainerConfig {
    pub image: Option<String>,
    pub working_dir: Option<String>,
    pub env: Option<Vec<String>>,
    /// The label map, as key and value pairs.
    pub labels: Option<Vec<Label>>,
}

/// What `docker inspect` reports of a container, as far as the details view
/// reads it.
pub struct ContainerInspect {
    pub id: Option<String>,
    pub name: Option<String>,
    /// The image digest.
    pub image: Option<String>,
    pub created: Option<String>,
    pub path: Option<String>,
    pub args: Option<Vec<String>>,
    pub restart_count: Option<i64>,
    pub platform: Option<String>,
    pub state: Option<ContainerState>,
    /// The restart policy's name (`no`, `always`, `unless-stopped`, …).
    pub restart_policy: Option<String>,
    pub config: Option<ContainerConfig>,
    pub mounts: Option<Vec<MountPoint>>,
    /// The port map of the network settings.
    pub ports: Option<Vec<PortMapping>>,
    /// The networks of the network settings.
    pub networks: Option<Vec<Endpoint>>,
}

/// One published-port binding row of the details view.
#[derive(Debug)]
pub struct PortBindingDto {
    pub container_port: u16,
    pub protocol: String,
    pub host_ip: Option<String>,
    pub host_port: Option<u16>,
}

pub struct PortBindingDtoView {
    pub container_port: u16,
    pub protocol: Seq<char>,
    pub host_ip: Option<Seq<char>>,
    pub host_port: Option<u16>,
}

impl View for PortBindingDto {
    type V = PortBindingDtoView;

    open spec fn view(&self) -> PortBindingDtoView {
        PortBindingDtoView {
            container_port: self.container_port,
            protocol: self.protocol@,
            host_ip: opt_view(self.host_ip),
            host_port: self.host_port,
        }
    }
}

impl SortKey for PortBindingDto {
    /// The order of the tuple `(container_port, protocol, host_ip, host_port)`.
    open spec fn le_view(a: PortBindingDtoView, b: PortBindingDtoView) -> bool {
        ||| a.container_port < b.container_port
        ||| a.container_port == b.container_port && lex_lt(a.protocol, b.protocol)
        ||| a.container_port == b.container_port && a.protocol == b.protocol && a.host_ip
            != b.host_ip && opt_lex_le(a.host_ip, b.host_ip)
        ||| a.container_port == b.container_port && a.protocol == b.protocol && a.host_ip
            == b.host_ip && opt_u16_le(a.host_port, b.host_port)
    }

    fn key_le(&self, other: &Self) -> (r: bool) {
        if self.container_port != other.container_port {
            self.container_port < other.container_port
        } else if !str_eq(self.protocol.as_str(), other.protocol.as_str()) {
            lex_lt_str(self.protocol.as_str(), other.protocol.as_str())
        } else if !opt_str_eq(&self.host_ip, &other.host_ip) {
            opt_lex_le_str(&self.host_ip, &other.host_ip)
        } else {
            opt_u16_le_exec(self.host_port, other.host_port)
        }
    }
}

impl ViewEq for PortBindingDto {
    fn view_eq(&self, other: &Self) -> (r: bool) {
        let r = self.container_port == other.container_port && str_eq(
            self.protocol.as_str(),
            other.protocol.as_str(),
        ) && opt_str_eq(&self.host_ip, &other.host_ip) && self.host_port == other.host_port;
        proof {
            if self.container_port == other.container_port && self.protocol@ == other.protocol@
                && opt_view(self.host_ip) == opt_view(other.host_ip) && self.host_port
                == other.host_port {
                assert(self@ == other@);
            }
        }
        r
    }
}

/// A filesystem mount row of the details view.
#[derive(Debug)]
pub struct MountDto {
    pub typ: Option<String>,
    pub name: Option<String>,
    pub source: Option<String>,
    pub destination: Option<String>,
    pub mode: Option<String>,
    pub rw: Option<bool>,
}

pub struct MountDtoView {
    pub typ: Option<Seq<char>>,
    pub name: Option<Seq<char>>,
    pub source: Option<Seq<char>>,
    pub destination: Option<Seq<char>>,
    pub mode: Option<Seq<char>>,
    pub rw: Option<bool>,
}

impl View for MountDto {
    type V = MountDtoView;

    open spec fn view(&self) -> MountDtoView {
        MountDtoView {
            typ: opt_view(self.typ),
            name: opt_view(self.name),
            source: opt_view(self.source),
            destination: opt_view(self.destination),
            mode: opt_view(self.mode),
            rw: self.rw,
        }
    }
}

impl SortKey for MountDto {
    /// By destination path, absent first.
    open spec fn le_view(a: MountDtoView, b: MountDtoView) -> bool {
        opt_lex_le(a.destination, b.destination)
    }

    fn key_le(&self, other: &Self) -> (r: bool) {
        opt_lex_le_str(&self.destination, &other.destination)
    }
}

/// A network attachment row of the details view.
#[derive(Debug)]
pub struct NetworkDto {
    pub name: String,
    pub ip_address: Option<String>,
    pub gateway: Option<String>,
    pub mac_address: Option<String>,
}

pub struct NetworkDtoView {
    pub name: Seq<char>,
    pub ip_address: Option<Seq<char>>,
    pub gateway: Option<Seq<char>>,
    pub mac_address: Option<Seq<char>>,
}

impl View for NetworkDto {
    type V = NetworkDtoView;

    open spec fn view(&self) -> NetworkDtoView {
        NetworkDtoView {
            name: self.name@,
            ip_address: opt_view(self.ip_address),
            gateway: opt_view(self.gateway),
            mac_address: opt_view(self.mac_address),
        }
    }
}

impl SortKey for NetworkDto {
    /// By network name.
    open spec fn le_view(a: NetworkDtoView, b: NetworkDtoView) -> bool {
        lex_le(a.name, b.name)
    }

    fn key_le(&self, other: &Self) -> (r: bool) {
        lex_le_str(self.name.as_str(), other.name.as_str())
    }
}

impl View for Label {
    type V = (Seq<char>, Seq<char>);

    open spec fn view(&self) -> (Seq<char>, Seq<char>) {
        (self.key@, self.value@)
    }
}

impl SortKey for Label {
    /// By key.
    open spec fn le_view(a: (Seq<char>, Seq<char>), b: (Seq<char>, Seq<char>)) -> bool {
        lex_le(a.0, b.0)
    }

    fn key_le(&self, other: &Self) -> (r: bool) {
        lex_le_str(self.key.as_str(), other.key.as_str())
    }
}

/// The details view of one container.
#[derive(Debug)]
pub struct ContainerDetailsDto {
    pub id: String,
    pub name: String,
    pub image: String,
    pub state: String,
    pub exit_code: Option<i64>,
    pub created: Option<String>,
    pub started_at: Option<String>,
    pub finished_at: Option<String>,
    pub restart_policy: Option<String>,
    pub restart_count: i64,
    pub platform: Option<String>,
    pub command: Option<String>,
    pub working_dir: Option<String>,
    pub env: Vec<String>,
    /// Sorted by key, one label per key; where the configuration gave a key
    /// twice, the later value is kept.
    pub labels: Vec<Label>,
    pub ports: Vec<PortBindingDto>,
    pub mounts: Vec<MountDto>,
    pub networks: Vec<NetworkDto>,
}

pub struct ContainerDetailsView {
    pub id: Seq<char>,
    pub name: Seq<char>,
    pub image: Seq<char>,
    pub state: Seq<char>,
    pub exit_code: Option<i64>,
    pub created: Option<Seq<char>>,
    pub started_at: Option<Seq<char>>,
    pub finished_at: Option<Seq<char>>,
    pub restart_policy: Option<Seq<char>>,
    pub restart_count: i64,
    pub platform: Option<Seq<char>>,
    pub command: Option<Seq<char>>,
    pub working_dir: Option<Seq<char>>,
    pub env: Seq<Seq<char>>,
    pub labels: Seq<(Seq<char>, Seq<char>)>,
    pub ports: Seq<PortBindingDtoView>,
    pub mounts: Seq<MountDtoView>,
    pub networks: Seq<NetworkDtoView>,
}

impl View for ContainerDetailsDto {
    type V = ContainerDetailsView;

    open spec fn view(&self) -> ContainerDetailsView {
        ContainerDetailsView {
            id: self.id@,
            name: self.name@,
            image: self.image@,
            state: self.state@,
            exit_code: self.exit_code,
            created: opt_view(self.created),
            started_at: opt_view(self.started_at),
            finished_at: opt_view(self.finished_at),
            restart_policy: opt_view(self.restart_policy),
            restart_count: self.restart_count,
            platform: opt_view(self.platform),
            command: opt_view(self.command),
            working_dir: opt_view(self.working_dir),
            env: string_views(self.env@),
            labels: views(self.labels@),
            ports: views(self.ports@),
            mounts: views(self.mounts@),
            networks: views(self.networks@),
        }
    }
}

/// The row of one host binding of container port `port`/`protocol`: an empty
/// host address reads as absent, an unparseable host port too.
pub open spec fn binding_row(port: u16, protocol: Seq<char>, b: PortBinding) -> PortBindingDtoView {
    PortBindingDtoView {
        container_port: port,
        protocol: protocol,
        host_ip: nonempty(opt_view(b.host_ip)),
        host_port: opt_port(b.host_port),
    }
}

/// The rows of one port-map entry. A key that is not `<port>/<protocol>` with
/// a 16-bit decimal port gives none; an entry without bindings gives one row
/// with no host side.
pub open spec fn mapping_rows(m: PortMapping) -> Seq<PortBindingDtoView> {
    match first_index_of(m.key@, '/') {
        None => Seq::empty(),
        Some(i) => match parse_unsigned(m.key@.take(i), 65535) {
            None => Seq::empty(),
            Some(p) => {
                let protocol = m.key@.skip(i + 1);
                let bare = PortBindingDtoView {
                    container_port: p as u16,
                    protocol: protocol,
                    host_ip: None,
                    host_port: None,
                };
                match m.bindings {
                    Some(list) => if list@.len() > 0 {
                        list@.map_values(|b: PortBinding| binding_row(p as u16, protocol, b))
                    } else {
                        seq![bare]
                    },
                    None => seq![bare],
                }
            },
        },
    }
}

/// The rows of all port-map entries, in the map's order.
pub open spec fn all_port_rows(ms: Seq<PortMapping>) -> Seq<PortBindingDtoView>
    decreases ms.len(),
{
    if ms.len() == 0 {
        Seq::empty()
    } else {
        all_port_rows(ms.drop_last()) + mapping_rows(ms.last())
    }
}

/// The port rows of the details view: every binding row, sorted, each
/// distinct row once.
pub open spec fn details_ports(ports: Option<Vec<PortMapping>>) -> Seq<PortBindingDtoView> {
    let rows = match ports {
        Some(ms) => all_port_rows(ms@),
        None => Seq::empty(),
    };
    dedup(sort_stable::<PortBindingDto>(rows))
}

/// The view of a mount row: empty source and mode read as absent.
pub open spec fn mount_row(m: MountPoint) -> MountDtoView {
    MountDtoView {
        typ: opt_view(m.typ),
        name: opt_view(m.name),
        source: nonempty(opt_view(m.source)),
        destination: opt_view(m.destination),
        mode: nonempty(opt_view(m.mode)),
        rw: m.rw,
    }
}

/// The mount rows of the details view, stably sorted by destination.
pub open spec fn details_mounts(mounts: Option<Vec<MountPoint>>) -> Seq<MountDtoView> {
    let rows = match mounts {
        Some(ms) => ms@.map_values(|m: MountPoint| mount_row(m)),
        None => Seq::empty(),
    };
    sort_stable::<MountDto>(rows)
}

/// The view of a network row: empty addresses read as absent.
pub open spec fn network_row(e: Endpoint) -> NetworkDtoView {
    NetworkDtoView {
        name: e.name@,
        ip_address: nonempty(opt_view(e.ip_address)),
        gateway: nonempty(opt_view(e.gateway)),
        mac_address: nonempty(opt_view(e.mac_address)),
    }
}

/// The network rows of the details view, stably sorted by name.
pub open spec fn details_networks(networks: Option<Vec<Endpoint>>) -> Seq<NetworkDtoView> {
    let rows = match networks {
        Some(es) => es@.map_values(|e: Endpoint| network_row(e)),
        None => Seq::empty(),
    };
    sort_stable::<NetworkDto>(rows)
}

/// A time the daemon reports, with its zero time (year 1) read as absent.
pub open spec fn real_time(t: Option<String>) -> Option<Seq<char>> {
    match t {
        Some(s) => if starts_with(s@, "0001-"@) {
            None
        } else {
            Some(s@)
        },
        None => None,
    }
}

/// The command line: the path, then the arguments, space separated.
pub open spec fn command_line(path: Option<String>, args: Option<Vec<String>>) -> Option<Seq<char>> {
    match path {
        Some(p) => {
            let a = match args {
                Some(v) => string_views(v@),
                None => Seq::empty(),
            };
            if a.len() == 0 {
                Some(p@)
            } else {
                Some(p@ + " "@ + join(a, " "@))
            }
        },
        None => None,
    }
}

/// The restart policy, with an empty name and `no` read as none set.
pub open spec fn restart_policy_name(name: Option<String>) -> Option<Seq<char>> {
    match name {
        Some(n) => if n@.len() > 0 && n@ != "no"@ {
            Some(n@)
        } else {
            None
        },
        None => None,
    }
}

/// The details view of an inspected container.
pub open spec fn details_view(c: ContainerInspect) -> ContainerDetailsView {
    let id = opt_text(c.id);
    let config_image = match c.config {
        Some(cfg) => opt_view(cfg.image),
        None => None,
    };
    ContainerDetailsView {
        id: id,
        name: display_name(opt_view(c.name), id),
        image: match config_image {
            Some(i) => i,
            None => opt_text(c.image),
        },
        state: match c.state {
            Some(s) => match s.status {
                Some(st) => st@,
                None => "unknown"@,
            },
            None => "unknown"@,
        },
        exit_code: match c.state {
            Some(s) => s.exit_code,
            None => None,
        },
        created: opt_view(c.created),
        started_at: match c.state {
            Some(s) => real_time(s.started_at),
            None => None,
        },
        finished_at: match c.state {
            Some(s) => real_time(s.finished_at),
            None => None,
        },
        restart_policy: restart_policy_name(c.restart_policy),
        restart_count: match c.restart_count {
            Some(n) => n,
            None => 0,
        },
        platform: opt_view(c.platform),
        command: command_line(c.path, c.args),
        working_dir: match c.config {
            Some(cfg) => nonempty(opt_view(cfg.working_dir)),
            None => None,
        },
        env: match c.config {
            Some(cfg) => match cfg.env {
                Some(e) => string_views(e@),
                None => Seq::empty(),
            },
            None => Seq::empty(),
        },
        labels: match c.config {
            Some(cfg) => match cfg.labels {
                Some(l) => dedup_keys_keep_last(sort_stable::<Label>(views(l@))),
                None => Seq::empty(),
            },
            None => Seq::empty(),
        },
        ports: details_ports(c.ports),
        mounts: details_mounts(c.mounts),
        networks: details_networks(c.networks),
    }
}

} // verus!
verus! {

fn binding_rows(port: u16, protocol: &String, list: Vec<PortBinding>) -> (r: Vec<PortBindingDto>)
    ensures
        views(r@) == list@.map_values(|b: PortBinding| binding_row(port, protocol@, b)),
{
    let ghost all = list@;
    let n = list.len();
    let mut rev = reversed(list);
    let mut rows: Vec<PortBindingDto> = Vec::new();
    while rev.len() > 0
        invariant
            rows@.len() + rev@.len() == n,
            n == all.len(),
            forall|k: int| 0 <= k < rev@.len() ==> #[trigger] rev@[k] == all[n - 1 - k],
            forall|k: int| 0 <= k < rows@.len() ==> #[trigger] rows@[k]@ == binding_row(port, protocol@, all[k]),
        decreases rev@.len(),
    {
        let b = rev.pop().unwrap();
        rows.push(
            PortBindingDto {
                container_port: port,
                protocol: protocol.clone(),
                host_ip: nonempty_string(b.host_ip),
                host_port: opt_port_of(b.host_port),
            },
        );
    }
    assert(views(rows@) =~= all.map_values(|b: PortBinding| binding_row(port, protocol@, b)));
    rows
}

#[verifier::spinoff_prover]
fn mapping_rows_of(m: PortMapping) -> (r: Vec<PortBindingDto>)
    ensures
        views(r@) == mapping_rows(m),
{
    let key = chars_of(m.key.as_str());
    match find_char(&key, '/') {
        None => Vec::new(),
        Some(i) => {
            assert(key@.subrange(0, i as int) =~= m.key@.take(i as int));
            match parse_unsigned_chars(&key, 0, i, 65535) {
                None => Vec::new(),
                Some(p) => {
                    let protocol = string_from_chars(&key, i + 1, key.len());
                    assert(protocol@ =~= m.key@.skip(i + 1));
                    let port = p as u16;
                    let bare = PortBindingDto {
                        container_port: port,
                        protocol: protocol.clone(),
                        host_ip: None,
                        host_port: None,
                    };
                    match m.bindings {
                        Some(list) => if list.len() > 0 {
                            binding_rows(port, &protocol, list)
                        } else {
                            let mut v = Vec::new();
                            v.push(bare);
                            assert(views(v@) =~= seq![bare@]);
                            v
                        },
                        None => {
                            let mut v = Vec::new();
                            v.push(bare);
                            assert(views(v@) =~= seq![bare@]);
                            v
                        },
                    }
                },
            }
        },
    }
}

fn details_ports_of(ports: Option<Vec<PortMapping>>) -> (r: Vec<PortBindingDto>)
    ensures
        views(r@) == details_ports(ports),
{
    let ghost input = opt_list(ports);
    let list = match ports {
        Some(ms) => ms,
        None => Vec::new(),
    };
    let n = list.len();
    let mut rev = reversed(list);
    let mut rows: Vec<PortBindingDto> = Vec::new();
    let mut taken: usize = 0;
    assert(views(rows@) =~= all_port_rows(input.take(0)));
    while rev.len() > 0
        invariant
            taken + rev@.len() == n,
            n == input.len(),
            forall|k: int| 0 <= k < rev@.len() ==> #[trigger] rev@[k] == input[n - 1 - k],
            views(rows@) == all_port_rows(input.take(taken as int)),
        decreases rev@.len(),
    {
        let m = rev.pop().unwrap();
        assert(input.take(taken + 1).drop_last() =~= input.take(taken as int));
        assert(input.take(taken + 1).last() == m);
        let mut more = mapping_rows_of(m);
        let ghost before = views(rows@);
        let ghost extra = views(more@);
        rows.append(&mut more);
        assert(views(rows@) =~= before + extra);
        taken += 1;
    }
    assert(input.take(n as int) =~= input);
    let sorted = sort_stable_vec(rows);
    dedup_vec(sorted)
}

fn details_mounts_of(mounts: Option<Vec<MountPoint>>) -> (r: Vec<MountDto>)
    ensures
        views(r@) == details_mounts(mounts),
{
    let ghost input = opt_list(mounts);
    let list = match mounts {
        Some(ms) => ms,
        None => Vec::new(),
    };
    let n = list.len();
    let mut rev = reversed(list);
    let mut rows: Vec<MountDto> = Vec::new();
    while rev.len() > 0
        invariant
            rows@.len() + rev@.len() == n,
            n == input.len(),
            forall|k: int| 0 <= k < rev@.len() ==> #[trigger] rev@[k] == input[n - 1 - k],
            forall|k: int| 0 <= k < rows@.len() ==> #[trigger] rows@[k]@ == mount_row(input[k]),
        decreases rev@.len(),
    {
        let m = rev.pop().unwrap();
        rows.push(
            MountDto {
                typ: m.typ,
                name: m.name,
                source: nonempty_string(m.source),
                destination: m.destination,
                mode: nonempty_string(m.mode),
                rw: m.rw,
            },
        );
    }
    assert(views(rows@) =~= input.map_values(|m: MountPoint| mount_row(m)));
    sort_stable_vec(rows)
}

fn details_networks_of(networks: Option<Vec<Endpoint>>) -> (r: Vec<NetworkDto>)
    ensures
        views(r@) == details_networks(networks),
{
    let ghost input = opt_list(networks);
    let list = match networks {
        Some(es) => es,
        None => Vec::new(),
    };
    let n = list.len();
    let mut rev = reversed(list);
    let mut rows: Vec<NetworkDto> = Vec::new();
    while rev.len() > 0
        invariant
            rows@.len() + rev@.len() == n,
            n == input.len(),
            forall|k: int| 0 <= k < rev@.len() ==> #[trigger] rev@[k] == input[n - 1 - k],
            forall|k: int| 0 <= k < rows@.len() ==> #[trigger] rows@[k]@ == network_row(input[k]),
        decreases rev@.len(),
    {
        let e = rev.pop().unwrap();
        rows.push(
            NetworkDto {
                name: e.name,
                ip_address: nonempty_string(e.ip_address),
                gateway: nonempty_string(e.gateway),
                mac_address: nonempty_string(e.mac_address),
            },
        );
    }
    assert(views(rows@) =~= input.map_values(|e: Endpoint| network_row(e)));
    sort_stable_vec(rows)
}

fn real_time_of(t: Option<String>) -> (r: Option<String>)
    ensures
        opt_view(r) == real_time(t),
{
    match t {
        Some(s) => if starts_with_str(s.as_str(), "0001-") {
            None
        } else {
            Some(s)
        },
        None => None,
    }
}

fn command_line_of(path: Option<String>, args: Option<Vec<String>>) -> (r: Option<String>)
    ensures
        opt_view(r) == command_line(path, args),
{
    match path {
        Some(p) => {
            let a = match args {
                Some(v) => v,
                None => Vec::new(),
            };
            if a.len() == 0 {
                Some(p)
            } else {
                let mut line = p;
                line.append(" ");
                let rest = join_strings(&a, " ");
                line.append(rest.as_str());
                Some(line)
            }
        },
        None => None,
    }
}

fn restart_policy_of(name: Option<String>) -> (r: Option<String>)
    ensures
        opt_view(r) == restart_policy_name(name),
{
    match name {
        Some(n) => if n.as_str().unicode_len() > 0 && !str_eq(n.as_str(), "no") {
            Some(n)
        } else {
            None
        },
        None => None,
    }
}

impl ContainerDetailsDto {
    /// The details view of an inspected container.
    pub fn from_inspect(c: ContainerInspect) -> (r: ContainerDetailsDto)
        ensures
            r@ == details_view(c),
            r.exit_code == (match c.state {
                Some(s) => s.exit_code,
                None => None::<i64>,
            }),
            r.restart_count == (match c.restart_count {
                Some(n) => n,
                None => 0i64,
            }),
            r.id@ == (match c.id {
                Some(s) => s@,
                None => Seq::<char>::empty(),
            }),
    {
        let ghost c0 = c;
        let id = opt_string(c.id);
        let name = display_name_of(c.name, &id);
        let (config_image, working_dir, env, labels) = match c.config {
            Some(cfg) => {
                let env = match cfg.env {
                    Some(e) => e,
                    None => Vec::new(),
                };
                let labels = match cfg.labels {
                    Some(l) => dedup_labels(sort_stable_vec(l)),
                    None => Vec::new(),
                };
                (cfg.image, nonempty_string(cfg.working_dir), env, labels)
            },
            None => (None, None, Vec::new(), Vec::new()),
        };
        let image = match config_image {
            Some(i) => i,
            None => opt_string(c.image),
        };
        let (state, exit_code, started_at, finished_at) = match c.state {
            Some(s) => {
                let status = match s.status {
                    Some(st) => st,
                    None => "unknown".to_owned(),
                };
                (status, s.exit_code, real_time_of(s.started_at), real_time_of(s.finished_at))
            },
            None => ("unknown".to_owned(), None, None, None),
        };
        let restart_count = match c.restart_count {
            Some(n) => n,
            None => 0,
        };
        let r = ContainerDetailsDto {
            id,
            name,
            image,
            state,
            exit_code,
            created: c.created,
            started_at,
            finished_at,
            restart_policy: restart_policy_of(c.restart_policy),
            restart_count,
            platform: c.platform,
            command: command_line_of(c.path, c.args),
            working_dir,
            env,
            labels,
            ports: details_ports_of(c.ports),
            mounts: details_mounts_of(c.mounts),
            networks: details_networks_of(c.networks),
        };
        proof {
            assert(r@.env =~= details_view(c0).env);
            assert(r@.labels =~= details_view(c0).labels);
        }
        r
    }
}

} // verus!
verus! {

// ---------------------------------------------------------------------------
// Lifecycle actions and daemon errors
// ---------------------------------------------------------------------------

/// A lifecycle action on a container.
#[derive(Debug, Clone, Copy, PartialEq, Eq, Structural)]
pub enum ContainerAction {
    Restart,
    Start,
    Stop,
}

/// The action that a path segment names, if any.
pub open spec fn action_named(s: Seq<char>) -> Option<ContainerAction> {
    if s == "restart"@ {
        Some(ContainerAction::Restart)
    } else if s == "start"@ {
        Some(ContainerAction::Start)
    } else if s == "stop"@ {
        Some(ContainerAction::Stop)
    } else {
        None
    }
}

/// The message for an action the endpoint does not support.
pub open spec fn unsupported_action_text(action: Seq<char>) -> Seq<char> {
    "unsupported action: "@ + debug_text(action) + " (expected restart|start|stop)"@
}

/// The action a request names; any other name is a 400.
pub fn parse_action(action: &str) -> (r: Result<ContainerAction, ApiError>)
    ensures
        match action_named(action@) {
            Some(a) => r == Ok::<ContainerAction, ApiError>(a),
            None => r matches Err(e) && e.status == STATUS_BAD_REQUEST && e.message@ == unsupported_action_text(action@),
        },
{
    if str_eq(action, "restart") {
        Ok(ContainerAction::Restart)
    } else if str_eq(action, "start") {
        Ok(ContainerAction::Start)
    } else if str_eq(action, "stop") {
        Ok(ContainerAction::Stop)
    } else {
        let mut message = "unsupported action: ".to_owned();
        let quoted = debug_str(action);
        message.append(quoted.as_str());
        message.append(" (expected restart|start|stop)");
        Err(ApiError::bad_request(message))
    }
}

/// A failed request to the daemon: the status it answered with, when the
/// failure is such an answer, and the error's display text.
pub struct DockerFailure {
    pub server_status: Option<u16>,
    pub message: String,
}

/// `axum::http::StatusCode::from_u16(code)`, read back with `as_u16`. The
/// source accepts exactly the codes 100 to 999 and keeps the code unchanged.
#[verifier::external_body]
fn status_from_u16(code: u16) -> (r: Option<u16>)
    ensures
        r == (if 100 <= code <= 999 {
            Some(code)
        } else {
            None::<u16>
        }),
{
    axum::http::StatusCode::from_u16(code).ok().map(|s| s.as_u16())
}

/// The status with which a daemon failure is passed on: the daemon's own
/// status when it is a valid HTTP status, 502 otherwise.
pub open spec fn docker_error_status(server_status: Option<u16>) -> u16 {
    match server_status {
        Some(c) => if 100 <= c <= 999 {
            c
        } else {
            STATUS_BAD_GATEWAY
        },
        None => STATUS_BAD_GATEWAY,
    }
}

/// The error answered for a daemon failure.
pub fn docker_error(f: DockerFailure) -> (r: ApiError)
    ensures
        r.status == docker_error_status(f.server_status),
        r.message@ == f.message@,
        match f.server_status {
            Some(k) => if 100 <= k <= 999 {
                r.status == k
            } else {
                r.status == 502
            },
            None => r.status == 502,
        },
{
    let status = match f.server_status {
        Some(c) => match status_from_u16(c) {
            Some(s) => s,
            None => STATUS_BAD_GATEWAY,
        },
        None => STATUS_BAD_GATEWAY,
    };
    ApiError { status, message: f.message }
}

/// The error answered by the inspect and action endpoints when no Docker
/// client could be set up.
pub fn client_missing_error() -> (r: ApiError)
    ensures
        r.status == STATUS_SERVICE_UNAVAILABLE,
        r.message@ == client_missing_text(),
{
    ApiError { status: STATUS_SERVICE_UNAVAILABLE, message: "Docker client was not initialised".to_owned() }
}

/// The body of a successful lifecycle action.
#[derive(Debug)]
pub struct ActionResponse {
    pub ok: bool,
    pub id: String,
    pub action: String,
}

/// The answer to a lifecycle action given the daemon's outcome: success, or
/// a 304 (already in the requested state), is a success body; any other
/// failure is passed on.
pub fn action_outcome(result: Result<(), DockerFailure>, id: String, action: String) -> (r: Result<ActionResponse, ApiError>)
    ensures
        match result {
            Ok(()) => r matches Ok(b) && b.ok && b.id@ == id@ && b.action@ == action@,
            Err(f) => if f.server_status == Some(304u16) {
                r matches Ok(b) && b.ok && b.id@ == id@ && b.action@ == action@
            } else {
                r matches Err(e) && e.status == docker_error_status(f.server_status) && e.message@ == f.message@
            },
        },
        match result {
            Err(f) => match f.server_status {
                Some(k) => 100 <= k <= 999 && k != 304 ==> (r matches Err(e) && e.status == k),
                None => r matches Err(e) && e.status == 502,
            },
            Ok(()) => r is Ok,
        },
{
    match result {
        Ok(()) => Ok(ActionResponse { ok: true, id, action }),
        Err(f) => if f.server_status == Some(304u16) {
            Ok(ActionResponse { ok: true, id, action })
        } else {
            Err(docker_error(f))
        },
    }
}

} // verus!
verus! {

// ---------------------------------------------------------------------------
// Order laws
// ---------------------------------------------------------------------------

proof fn lemma_opt_lex_le_order()
    ensures
        forall|a: Option<Seq<char>>, b: Option<Seq<char>>| #[trigger] opt_lex_le(a, b) || opt_lex_le(b, a),
        forall|a: Option<Seq<char>>, b: Option<Seq<char>>, c: Option<Seq<char>>|
            #[trigger] opt_lex_le(a, b) && #[trigger] opt_lex_le(b, c) ==> opt_lex_le(a, c),
        forall|a: Option<Seq<char>>, b: Option<Seq<char>>| #[trigger] opt_lex_le(a, b) && #[trigger] opt_lex_le(b, a) ==> a == b,
{
    assert forall|a: Option<Seq<char>>, b: Option<Seq<char>>| #[trigger] opt_lex_le(a, b) || opt_lex_le(b, a) by {
        if let (Some(x), Some(y)) = (a, b) {
            crate::order::lemma_lex_le_total(x, y);
        }
    }
    assert forall|a: Option<Seq<char>>, b: Option<Seq<char>>, c: Option<Seq<char>>|
        #[trigger] opt_lex_le(a, b) && #[trigger] opt_lex_le(b, c) implies opt_lex_le(a, c) by {
        if let (Some(x), Some(y), Some(z)) = (a, b, c) {
            crate::order::lemma_lex_le_transitive(x, y, z);
        }
    }
    assert forall|a: Option<Seq<char>>, b: Option<Seq<char>>| #[trigger] opt_lex_le(a, b) && #[trigger] opt_lex_le(b, a) implies a == b by {
        if let (Some(x), Some(y)) = (a, b) {
            crate::order::lemma_lex_le_antisymmetric(x, y);
        }
    }
}

proof fn lemma_lex_le_order()
    ensures
        forall|a: Seq<char>, b: Seq<char>| #[trigger] lex_le(a, b) || lex_le(b, a),
        forall|a: Seq<char>, b: Seq<char>, c: Seq<char>|
            #[trigger] lex_le(a, b) && #[trigger] lex_le(b, c) ==> lex_le(a, c),
        forall|a: Seq<char>, b: Seq<char>| #[trigger] lex_le(a, b) && #[trigger] lex_le(b, a) ==> a == b,
{
    assert forall|a: Seq<char>, b: Seq<char>| #[trigger] lex_le(a, b) || lex_le(b, a) by {
        crate::order::lemma_lex_le_total(a, b);
    }
    assert forall|a: Seq<char>, b: Seq<char>, c: Seq<char>|
        #[trigger] lex_le(a, b) && #[trigger] lex_le(b, c) implies lex_le(a, c) by {
        crate::order::lemma_lex_le_transitive(a, b, c);
    }
    assert forall|a: Seq<char>, b: Seq<char>| #[trigger] lex_le(a, b) && #[trigger] lex_le(b, a) implies a == b by {
        crate::order::lemma_lex_le_antisymmetric(a, b);
    }
}

proof fn lemma_port_binding_order()
    ensures
        crate::order::key_order_total::<PortBindingDto>(),
        crate::order::key_order_transitive::<PortBindingDto>(),
        crate::order::key_order_antisymmetric::<PortBindingDto>(),
{
    lemma_lex_le_order();
    lemma_opt_lex_le_order();
}

proof fn lemma_port_order()
    ensures
        crate::order::key_order_total::<PortDto>(),
        crate::order::key_order_transitive::<PortDto>(),
        crate::order::key_order_antisymmetric::<PortDto>(),
{
    lemma_lex_le_order();
}

/// The ports of the details view are strictly ascending in the order of
/// `(container_port, protocol, host_ip, host_port)`, and they are exactly the
/// distinct rows of the port map's entries.
pub proof fn lemma_details_ports_distinct_sorted(ports: Option<Vec<PortMapping>>)
    ensures
        crate::order::sorted_by::<PortBindingDto>(details_ports(ports)),
        forall|i: int, j: int| 0 <= i < j < details_ports(ports).len() ==> #[trigger] details_ports(ports)[i] != #[trigger] details_ports(ports)[j],
        forall|row: PortBindingDtoView| #[trigger] details_ports(ports).contains(row) <==> all_port_rows(opt_list(ports)).contains(row),
{
    broadcast use vstd::seq_lib::group_to_multiset_ensures;

    lemma_port_binding_order();
    let rows = all_port_rows(opt_list(ports));
    assert(rows == match ports {
        Some(ms) => all_port_rows(ms@),
        None => Seq::<PortBindingDtoView>::empty(),
    });
    crate::order::lemma_sort_stable_sorted::<PortBindingDto>(rows);
    let sorted = sort_stable::<PortBindingDto>(rows);
    crate::order::lemma_dedup_sorted::<PortBindingDto>(sorted);
    assert forall|row: PortBindingDtoView| #[trigger] sorted.contains(row) <==> rows.contains(row) by {
        assert(sorted.to_multiset().count(row) == rows.to_multiset().count(row));
    }
}

/// The ports of a list row are strictly ascending in the order of
/// `(private, public, proto)`, and they are exactly the distinct mappings the
/// daemon listed.
pub proof fn lemma_container_ports_distinct_sorted(c: ContainerSummary)
    ensures
        crate::order::sorted_by::<PortDto>(container_row(c).ports),
        forall|i: int, j: int| 0 <= i < j < container_row(c).ports.len() ==> #[trigger] container_row(c).ports[i] != #[trigger] container_row(c).ports[j],
        forall|p: PortDtoView| #[trigger] container_row(c).ports.contains(p) <==> summary_port_views(c.ports).contains(p),
{
    broadcast use vstd::seq_lib::group_to_multiset_ensures;

    lemma_port_order();
    let rows = summary_port_views(c.ports);
    crate::order::lemma_sort_stable_sorted::<PortDto>(rows);
    let sorted = sort_stable::<PortDto>(rows);
    crate::order::lemma_dedup_sorted::<PortDto>(sorted);
    assert forall|p: PortDtoView| #[trigger] sorted.contains(p) <==> rows.contains(p) by {
        assert(sorted.to_multiset().count(p) == rows.to_multiset().count(p));
    }
}

/// The container list is newest first and holds one row per listed
/// container.
pub proof fn lemma_listing_newest_first(list: Seq<ContainerSummary>)
    ensures
        ({
            let rows = list.map_values(|c: ContainerSummary| container_row(c));
            let out = sort_stable::<ContainerDto>(rows);
            &&& forall|i: int, j: int| 0 <= i < j < out.len() ==> #[trigger] out[i].created >= #[trigger] out[j].created
            &&& out.to_multiset() == rows.to_multiset()
        }),
{
    let rows = list.map_values(|c: ContainerSummary| container_row(c));
    crate::order::lemma_sort_stable_sorted::<ContainerDto>(rows);
    let out = sort_stable::<ContainerDto>(rows);
    assert forall|i: int, j: int| 0 <= i < j < out.len() implies #[trigger] out[i].created >= #[trigger] out[j].created by {
        assert(ContainerDto::le_view(out[i], out[j]));
    }
}

/// The mounts of the details view are ordered by destination and the networks
/// by name, each holding exactly the items reported; the labels are ordered by
/// key, no key occurs twice, and the keys are exactly those reported.
pub proof fn lemma_details_lists_sorted(c: ContainerInspect)
    ensures
        crate::order::sorted_by::<MountDto>(details_view(c).mounts),
        crate::order::sorted_by::<NetworkDto>(details_view(c).networks),
        crate::order::sorted_by::<Label>(details_view(c).labels),
        forall|i: int, j: int| 0 <= i < j < details_view(c).labels.len() ==> #[trigger] details_view(c).labels[i].0 != #[trigger] details_view(c).labels[j].0,
        forall|k: Seq<char>| #[trigger] has_key(details_view(c).labels, k) <==> has_key(reported_labels(c), k),
        details_view(c).mounts.to_multiset() == opt_list(c.mounts).map_values(|m: MountPoint| mount_row(m)).to_multiset(),
        details_view(c).networks.to_multiset() == opt_list(c.networks).map_values(|e: Endpoint| network_row(e)).to_multiset(),
{
    lemma_opt_lex_le_order();
    lemma_lex_le_order();
    let mounts = opt_list(c.mounts).map_values(|m: MountPoint| mount_row(m));
    assert(mounts == match c.mounts {
        Some(ms) => ms@.map_values(|m: MountPoint| mount_row(m)),
        None => Seq::<MountDtoView>::empty(),
    });
    crate::order::lemma_sort_stable_sorted::<MountDto>(mounts);
    let networks = opt_list(c.networks).map_values(|e: Endpoint| network_row(e));
    assert(networks == match c.networks {
        Some(es) => es@.map_values(|e: Endpoint| network_row(e)),
        None => Seq::<NetworkDtoView>::empty(),
    });
    crate::order::lemma_sort_stable_sorted::<NetworkDto>(networks);
    match c.config {
        Some(cfg) => match cfg.labels {
            Some(l) => {
                let sorted = sort_stable::<Label>(views(l@));
                crate::order::lemma_sort_stable_sorted::<Label>(views(l@));
                lemma_dedup_keys_sorted(sorted);
                assert forall|k: Seq<char>| has_key(sorted, k) <==> has_key(views(l@), k) by {
                    lemma_has_key_multiset(sorted, views(l@), k);
                }
            },
            None => {},
        },
        None => {},
    }
}

proof fn lemma_has_key_multiset(a: Seq<(Seq<char>, Seq<char>)>, b: Seq<(Seq<char>, Seq<char>)>, k: Seq<char>)
    requires
        a.to_multiset() == b.to_multiset(),
    ensures
        has_key(a, k) <==> has_key(b, k),
{
    broadcast use vstd::seq_lib::group_to_multiset_ensures;

    if has_key(a, k) {
        let i = choose|i: int| 0 <= i < a.len() && #[trigger] a[i].0 == k;
        assert(a.contains(a[i]));
        assert(b.to_multiset().count(a[i]) > 0);
        assert(b.contains(a[i]));
        let j = choose|j: int| 0 <= j < b.len() && b[j] == a[i];
        assert(b[j].0 == k);
    }
    if has_key(b, k) {
        let j = choose|j: int| 0 <= j < b.len() && #[trigger] b[j].0 == k;
        assert(b.contains(b[j]));
        assert(a.to_multiset().count(b[j]) > 0);
        assert(a.contains(b[j]));
        let i = choose|i: int| 0 <= i < a.len() && a[i] == b[j];
        assert(a[i].0 == k);
    }
}

/// The labels that the inspected configuration reports, in the order given.
pub open spec fn reported_labels(c: ContainerInspect) -> Seq<(Seq<char>, Seq<char>)> {
    match c.config {
        Some(cfg) => match cfg.labels {
            Some(l) => views(l@),
            None => Seq::empty(),
        },
        None => Seq::empty(),
    }
}

} // verus!
verus! {

// ---------------------------------------------------------------------------
// Labels: one entry per key
// ---------------------------------------------------------------------------

/// `s` with each run of labels of equal key reduced to its last label: a later
/// value for a key replaces an earlier one, as inserting into a map does.
pub open spec fn dedup_keys_keep_last(s: Seq<(Seq<char>, Seq<char>)>) -> Seq<(Seq<char>, Seq<char>)>
    decreases s.len(),
{
    if s.len() <= 1 {
        s
    } else {
        let d = dedup_keys_keep_last(s.drop_last());
        if s.last().0 == s[s.len() - 2].0 {
            d.drop_last().push(s.last())
        } else {
            d.push(s.last())
        }
    }
}

/// Whether some label of `s` has key `k`.
pub open spec fn has_key(s: Seq<(Seq<char>, Seq<char>)>, k: Seq<char>) -> bool {
    exists|i: int| 0 <= i < s.len() && #[trigger] s[i].0 == k
}

proof fn lemma_dedup_keys_last(s: Seq<(Seq<char>, Seq<char>)>)
    requires
        s.len() > 0,
    ensures
        dedup_keys_keep_last(s).len() > 0,
        dedup_keys_keep_last(s).last() == s.last(),
    decreases s.len(),
{
    if s.len() > 1 {
        lemma_dedup_keys_last(s.drop_last());
    }
}

/// The labels of `v`, each run of equal keys reduced to its last label.
fn dedup_labels(v: Vec<Label>) -> (r: Vec<Label>)
    ensures
        views(r@) == dedup_keys_keep_last(views(v@)),
{
    let ghost all = views(v@);
    let n = v.len();
    let mut rev = reversed(v);
    assert forall|k: int| 0 <= k < rev@.len() implies #[trigger] rev@[k]@ == all[n - 1 - k] by {
        assert(rev@[k] == v@[n - 1 - k]);
    }
    let mut out: Vec<Label> = Vec::new();
    let mut taken: usize = 0;
    assert(views(out@) =~= dedup_keys_keep_last(all.take(0)));
    while rev.len() > 0
        invariant
            taken + rev@.len() == n,
            n == all.len(),
            forall|k: int| 0 <= k < rev@.len() ==> #[trigger] rev@[k]@ == all[n - 1 - k],
            views(out@) == dedup_keys_keep_last(all.take(taken as int)),
            taken > 0 ==> out@.len() > 0 && out@.last()@ == all[taken - 1],
        decreases rev@.len(),
    {
        let x = rev.pop().unwrap();
        let ghost prefix = all.take(taken + 1);
        assert(x@ == all[taken as int]);
        assert(prefix.drop_last() =~= all.take(taken as int));
        let same = if out.len() == 0 {
            false
        } else {
            let last = out.len() - 1;
            str_eq(out[last].key.as_str(), x.key.as_str())
        };
        proof {
            if taken > 0 {
                assert(prefix[prefix.len() - 2] == all[taken - 1]);
                lemma_dedup_keys_last(all.take(taken as int));
            } else {
                assert(prefix =~= seq![x@]);
            }
        }
        let ghost before = views(out@);
        if same {
            out.pop();
            out.push(x);
            assert(views(out@) =~= before.drop_last().push(x@));
        } else {
            out.push(x);
            assert(views(out@) =~= before.push(x@));
        }
        taken += 1;
    }
    assert(all.take(n as int) =~= all);
    out
}

/// Reducing each run of equal keys of labels sorted by key leaves them
/// strictly ascending by key, with the same set of keys.
pub proof fn lemma_dedup_keys_sorted(s: Seq<(Seq<char>, Seq<char>)>)
    requires
        crate::order::sorted_by::<Label>(s),
    ensures
        crate::order::sorted_by::<Label>(dedup_keys_keep_last(s)),
        forall|i: int, j: int| 0 <= i < j < dedup_keys_keep_last(s).len() ==> #[trigger] dedup_keys_keep_last(s)[i].0 != #[trigger] dedup_keys_keep_last(s)[j].0,
        forall|k: Seq<char>| #[trigger] has_key(dedup_keys_keep_last(s), k) <==> has_key(s, k),
    decreases s.len(),
{
    lemma_lex_le_order();
    if s.len() > 1 {
        let d = s.drop_last();
        let last = s.last();
        assert(crate::order::sorted_by::<Label>(d)) by {
            assert forall|i: int, j: int| 0 <= i < j < d.len() implies Label::le_view(#[trigger] d[i], #[trigger] d[j]) by {
                assert(d[i] == s[i] && d[j] == s[j]);
            }
        }
        lemma_dedup_keys_sorted(d);
        lemma_dedup_keys_last(d);
        let dd = dedup_keys_keep_last(d);
        let r = dedup_keys_keep_last(s);
        let n = dd.len();
        assert(dd.last() == s[s.len() - 2]);
        // Every key of `d` comes no later than the last key.
        assert forall|k: Seq<char>| has_key(d, k) implies lex_le(k, last.0) by {
            let i = choose|i: int| 0 <= i < d.len() && #[trigger] d[i].0 == k;
            assert(s[i] == d[i]);
            assert(Label::le_view(s[i], s[s.len() - 1]));
        }
        assert forall|i: int| 0 <= i < n implies lex_le(#[trigger] dd[i].0, last.0) by {
            assert(has_key(dd, dd[i].0));
        }
        assert forall|i: int| 0 <= i < n - 1 implies #[trigger] dd[i].0 != dd[n - 1].0 by {
        }
        assert(has_key(d, s[s.len() - 2].0)) by {
            assert(d[d.len() - 1].0 == s[s.len() - 2].0);
        }
        if last.0 == s[s.len() - 2].0 {
            assert(r == dd.drop_last().push(last));
            assert forall|i: int, j: int| 0 <= i < j < r.len() implies Label::le_view(#[trigger] r[i], #[trigger] r[j]) by {
                if j == r.len() - 1 {
                    assert(r[i] == dd[i]);
                } else {
                    assert(r[i] == dd[i] && r[j] == dd[j]);
                }
            }
            assert forall|i: int, j: int| 0 <= i < j < r.len() implies #[trigger] r[i].0 != #[trigger] r[j].0 by {
                if j == r.len() - 1 {
                    assert(r[i] == dd[i]);
                } else {
                    assert(r[i] == dd[i] && r[j] == dd[j]);
                }
            }
            assert forall|k: Seq<char>| #[trigger] has_key(r, k) <==> has_key(s, k) by {
                if has_key(r, k) {
                    let i = choose|i: int| 0 <= i < r.len() && #[trigger] r[i].0 == k;
                    if i < r.len() - 1 {
                        assert(dd[i].0 == k);
                    } else {
                        assert(dd[n - 1].0 == k);
                    }
                    assert(has_key(dd, k));
                    assert(has_key(d, k));
                    let m = choose|m: int| 0 <= m < d.len() && #[trigger] d[m].0 == k;
                    assert(s[m] == d[m]);
                }
                if has_key(s, k) {
                    let m = choose|m: int| 0 <= m < s.len() && #[trigger] s[m].0 == k;
                    if m < s.len() - 1 {
                        assert(d[m] == s[m]);
                        assert(has_key(d, k));
                    }
                    assert(has_key(d, k));
                    assert(has_key(dd, k));
                    let i = choose|i: int| 0 <= i < dd.len() && #[trigger] dd[i].0 == k;
                    if i < n - 1 {
                        assert(r[i] == dd[i]);
                    } else {
                        assert(r[r.len() - 1].0 == k);
                    }
                }
            }
        } else {
            assert(r == dd.push(last));
            assert forall|i: int, j: int| 0 <= i < j < r.len() implies Label::le_view(#[trigger] r[i], #[trigger] r[j]) by {
                if j == r.len() - 1 {
                    assert(r[i] == dd[i]);
                } else {
                    assert(r[i] == dd[i] && r[j] == dd[j]);
                }
            }
            assert forall|i: int, j: int| 0 <= i < j < r.len() implies #[trigger] r[i].0 != #[trigger] r[j].0 by {
                if j == r.len() - 1 {
                    assert(r[i] == dd[i]);
                    if dd[i].0 == last.0 && i < n - 1 {
                        assert(Label::le_view(dd[i], dd[n - 1]));
                        assert(lex_le(dd[n - 1].0, last.0));
                    }
                } else {
                    assert(r[i] == dd[i] && r[j] == dd[j]);
                }
            }
            assert forall|k: Seq<char>| #[trigger] has_key(r, k) <==> has_key(s, k) by {
                if has_key(r, k) {
                    let i = choose|i: int| 0 <= i < r.len() && #[trigger] r[i].0 == k;
                    if i < n {
                        assert(dd[i].0 == k);
                        assert(has_key(dd, k));
                        assert(has_key(d, k));
                        let m = choose|m: int| 0 <= m < d.len() && #[trigger] d[m].0 == k;
                        assert(s[m] == d[m]);
                    } else {
                        assert(s[s.len() - 1].0 == k);
                    }
                }
                if has_key(s, k) {
                    let m = choose|m: int| 0 <= m < s.len() && #[trigger] s[m].0 == k;
                    if m < s.len() - 1 {
                        assert(d[m] == s[m]);
                        assert(has_key(d, k));
                        assert(has_key(dd, k));
                        let i = choose|i: int| 0 <= i < dd.len() && #[trigger] dd[i].0 == k;
                        assert(r[i] == dd[i]);
                    } else {
                        assert(r[r.len() - 1].0 == k);
                    }
                }
            }
        }
    }
}

} // verus!
verus! {

// ---------------------------------------------------------------------------
// What the rows and the details carry over from the daemon's report
// ---------------------------------------------------------------------------

/// A list row carries the daemon's own texts and time: the id, image and
/// status text unchanged (empty only when absent), the state (`unknown` when
/// absent) and the creation time (0 when absent).
pub proof fn lemma_list_row_fields(c: ContainerSummary)
    ensures
        c.id matches Some(s) ==> container_row(c).id == s@,
        c.id is None ==> container_row(c).id.len() == 0,
        c.image matches Some(s) ==> container_row(c).image == s@,
        c.image is None ==> container_row(c).image.len() == 0,
        c.status matches Some(s) ==> container_row(c).status == s@,
        c.status is None ==> container_row(c).status.len() == 0,
        c.state matches Some(s) ==> container_row(c).state == s@,
        c.state is None ==> container_row(c).state == "unknown"@,
        c.created matches Some(t) ==> container_row(c).created == t,
        c.created is None ==> container_row(c).created == 0,
        match c.names {
            Some(ns) => ns@.len() > 0 && strip_leading(ns@[0]@, '/').len() > 0 ==> container_row(c).name == strip_leading(ns@[0]@, '/'),
            None => container_row(c).name == take_chars(opt_text(c.id), 12),
        },
{
}

/// The listing holds one row per container the daemon reported, each being
/// that container's row: every row comes from a reported container, and every
/// reported container has its row in the listing.
pub proof fn lemma_listing_rows_from_summaries(list: Seq<ContainerSummary>)
    ensures
        ({
            let out = sort_stable::<ContainerDto>(list.map_values(|c: ContainerSummary| container_row(c)));
            &&& out.len() == list.len()
            &&& forall|i: int| 0 <= i < out.len() ==> exists|j: int| 0 <= j < list.len() && #[trigger] out[i] == container_row(#[trigger] list[j])
            &&& forall|j: int| 0 <= j < list.len() ==> #[trigger] out.contains(container_row(list[j]))
        }),
{
    broadcast use vstd::seq_lib::group_to_multiset_ensures;

    let rows = list.map_values(|c: ContainerSummary| container_row(c));
    lemma_listing_newest_first(list);
    let out = sort_stable::<ContainerDto>(rows);
    assert(out.len() == out.to_multiset().len());
    assert forall|i: int| 0 <= i < out.len() implies exists|j: int| 0 <= j < list.len() && #[trigger] out[i] == container_row(#[trigger] list[j]) by {
        assert(out.contains(out[i]));
        assert(rows.to_multiset().count(out[i]) > 0);
        assert(rows.contains(out[i]));
        let j = choose|j: int| 0 <= j < rows.len() && rows[j] == out[i];
        assert(rows[j] == container_row(list[j]));
    }
    assert forall|j: int| 0 <= j < list.len() implies #[trigger] out.contains(container_row(list[j])) by {
        assert(rows[j] == container_row(list[j]));
        assert(rows.contains(rows[j]));
        assert(out.to_multiset().count(rows[j]) > 0);
    }
}

/// The details carry the daemon's report over: the exit code of the last run
/// exactly as reported, the state text (`unknown` when absent), the start and
/// finish times unless they are the zero time, the id, creation time,
/// platform and restart count as reported (the count 0 when absent), and the
/// configured image ahead of the image digest.
pub proof fn lemma_details_fields(c: ContainerInspect)
    ensures
        c.state matches Some(s) ==> details_view(c).exit_code == s.exit_code,
        c.state is None ==> details_view(c).exit_code is None,
        match c.state {
            Some(s) => match s.status {
                Some(t) => details_view(c).state == t@,
                None => details_view(c).state == "unknown"@,
            },
            None => details_view(c).state == "unknown"@,
        },
        match c.state {
            Some(s) => match s.started_at {
                Some(t) => if starts_with(t@, "0001-"@) {
                    details_view(c).started_at is None
                } else {
                    details_view(c).started_at == Some(t@)
                },
                None => details_view(c).started_at is None,
            },
            None => details_view(c).started_at is None,
        },
        match c.state {
            Some(s) => match s.finished_at {
                Some(t) => if starts_with(t@, "0001-"@) {
                    details_view(c).finished_at is None
                } else {
                    details_view(c).finished_at == Some(t@)
                },
                None => details_view(c).finished_at is None,
            },
            None => details_view(c).finished_at is None,
        },
        c.id matches Some(i) ==> details_view(c).id == i@,
        c.created matches Some(t) ==> details_view(c).created == Some(t@),
        c.created is None ==> details_view(c).created is None,
        c.platform matches Some(t) ==> details_view(c).platform == Some(t@),
        match c.name {
            Some(n) => strip_leading(n@, '/').len() > 0 ==> details_view(c).name == strip_leading(n@, '/'),
            None => details_view(c).name == take_chars(opt_text(c.id), 12),
        },
        match c.config {
            Some(cfg) => match cfg.env {
                Some(e) => details_view(c).env == e@.map_values(|v: String| v@),
                None => details_view(c).env.len() == 0,
            },
            None => details_view(c).env.len() == 0,
        },
        match c.config {
            Some(cfg) => match cfg.working_dir {
                Some(w) => if w@.len() > 0 {
                    details_view(c).working_dir == Some(w@)
                } else {
                    details_view(c).working_dir is None
                },
                None => details_view(c).working_dir is None,
            },
            None => details_view(c).working_dir is None,
        },
        c.restart_count matches Some(n) ==> details_view(c).restart_count == n,
        c.restart_count is None ==> details_view(c).restart_count == 0,
        match c.config {
            Some(cfg) => match cfg.image {
                Some(i) => details_view(c).image == i@,
                None => c.image matches Some(i) ==> details_view(c).image == i@,
            },
            None => c.image matches Some(i) ==> details_view(c).image == i@,
        },
{
}

/// A daemon failure is passed on with the daemon's own status whenever that is
/// a valid HTTP status (100 to 999); only a missing or invalid status becomes
/// 502 Bad Gateway.
pub proof fn lemma_docker_error_status(k: u16)
    ensures
        100 <= k <= 999 ==> docker_error_status(Some(k)) == k,
        !(100 <= k <= 999) ==> docker_error_status(Some(k)) == 502,
        docker_error_status(None) == 502,
{
}

} // verus!
verus! {

proof fn lemma_dedup_keys_from_input(s: Seq<(Seq<char>, Seq<char>)>)
    ensures
        forall|i: int| 0 <= i < dedup_keys_keep_last(s).len() ==> s.contains(#[trigger] dedup_keys_keep_last(s)[i]),
    decreases s.len(),
{
    if s.len() > 1 {
        let d = s.drop_last();
        lemma_dedup_keys_from_input(d);
        let dd = dedup_keys_keep_last(d);
        let r = dedup_keys_keep_last(s);
        assert forall|i: int| 0 <= i < r.len() implies s.contains(#[trigger] r[i]) by {
            if i == r.len() - 1 {
                assert(r[i] == s[s.len() - 1]);
            } else {
                assert(r[i] == dd[i]);
                assert(d.contains(dd[i]));
                let j = choose|j: int| 0 <= j < d.len() && d[j] == dd[i];
                assert(s[j] == d[j]);
            }
        }
    } else {
        assert forall|i: int| 0 <= i < dedup_keys_keep_last(s).len() implies s.contains(#[trigger] dedup_keys_keep_last(s)[i]) by {
            assert(dedup_keys_keep_last(s)[i] == s[i]);
        }
    }
}

/// Every label of the details view is a key and value pair that the
/// configuration reported: no value is altered or made up.
pub proof fn lemma_details_labels_reported(c: ContainerInspect)
    ensures
        forall|i: int| 0 <= i < details_view(c).labels.len() ==> reported_labels(c).contains(#[trigger] details_view(c).labels[i]),
{
    broadcast use vstd::seq_lib::group_to_multiset_ensures;

    match c.config {
        Some(cfg) => match cfg.labels {
            Some(l) => {
                lemma_lex_le_order();
                let all = views(l@);
                crate::order::lemma_sort_stable_sorted::<Label>(all);
                let sorted = sort_stable::<Label>(all);
                lemma_dedup_keys_from_input(sorted);
                let out = dedup_keys_keep_last(sorted);
                assert(out == details_view(c).labels);
                assert forall|i: int| 0 <= i < out.len() implies all.contains(#[trigger] out[i]) by {
                    assert(sorted.contains(out[i]));
                    assert(sorted.to_multiset().count(out[i]) > 0);
                }
            },
            None => {},
        },
        None => {},
    }
}

} // verus!
verus! {

/// The value that key `k` ends up with when the labels of `s` are inserted
/// into a map one after another: that of the last label with key `k`.
pub open spec fn last_value(s: Seq<(Seq<char>, Seq<char>)>, k: Seq<char>) -> Option<Seq<char>>
    decreases s.len(),
{
    if s.len() == 0 {
        None
    } else if s.last().0 == k {
        Some(s.last().1)
    } else {
        last_value(s.drop_last(), k)
    }
}

proof fn lemma_last_value_insert(t: Seq<(Seq<char>, Seq<char>)>, x: (Seq<char>, Seq<char>), k: Seq<char>)
    ensures
        last_value(crate::order::insert_sorted::<Label>(t, x), k) == (if x.0 == k {
            Some(x.1)
        } else {
            last_value(t, k)
        }),
    decreases t.len(),
{
    let r = crate::order::insert_sorted::<Label>(t, x);
    if t.len() == 0 {
        assert(r.drop_last() =~= t);
    } else if lex_le(t.last().0, x.0) {
        assert(r == t.push(x));
        assert(r.drop_last() =~= t);
    } else {
        crate::order::lemma_lex_le_total(x.0, x.0);
        assert(t.last().0 != x.0);
        lemma_last_value_insert(t.drop_last(), x, k);
        let m = crate::order::insert_sorted::<Label>(t.drop_last(), x);
        assert(r == m.push(t.last()));
        assert(r.drop_last() =~= m);
        assert(r.last() == t.last());
    }
}

proof fn lemma_last_value_sort(s: Seq<(Seq<char>, Seq<char>)>, k: Seq<char>)
    ensures
        last_value(sort_stable::<Label>(s), k) == last_value(s, k),
    decreases s.len(),
{
    if s.len() > 0 {
        lemma_last_value_sort(s.drop_last(), k);
        lemma_last_value_insert(sort_stable::<Label>(s.drop_last()), s.last(), k);
    }
}

proof fn lemma_last_value_dedup(t: Seq<(Seq<char>, Seq<char>)>)
    requires
        crate::order::sorted_by::<Label>(t),
    ensures
        forall|i: int| 0 <= i < dedup_keys_keep_last(t).len() ==> Some(#[trigger] dedup_keys_keep_last(t)[i].1) == last_value(t, dedup_keys_keep_last(t)[i].0),
    decreases t.len(),
{
    lemma_lex_le_order();
    let r = dedup_keys_keep_last(t);
    if t.len() <= 1 {
        assert forall|i: int| 0 <= i < r.len() implies Some(#[trigger] r[i].1) == last_value(t, r[i].0) by {
            assert(t.drop_last().len() == 0);
        }
    } else {
        let p = t.drop_last();
        assert(crate::order::sorted_by::<Label>(p)) by {
            assert forall|i: int, j: int| 0 <= i < j < p.len() implies lex_le(#[trigger] p[i].0, #[trigger] p[j].0) by {
                assert(p[i] == t[i] && p[j] == t[j]);
                assert(Label::le_view(t[i], t[j]));
            }
        }
        lemma_last_value_dedup(p);
        lemma_dedup_keys_sorted(p);
        lemma_dedup_keys_last(p);
        let d = dedup_keys_keep_last(p);
        let last = t.last();
        if last.0 == t[t.len() - 2].0 {
            assert forall|i: int| 0 <= i < r.len() implies Some(#[trigger] r[i].1) == last_value(t, r[i].0) by {
                if i < r.len() - 1 {
                    assert(r[i] == d[i]);
                    assert(d[i].0 != d[d.len() - 1].0);
                    assert(d.last() == p.last());
                }
            }
        } else {
            assert forall|i: int| 0 <= i < r.len() implies Some(#[trigger] r[i].1) == last_value(t, r[i].0) by {
                if i < d.len() {
                    assert(r[i] == d[i]);
                    if d[i].0 == last.0 {
                        assert(has_key(d, d[i].0));
                        assert(has_key(p, d[i].0));
                        let j = choose|j: int| 0 <= j < p.len() && #[trigger] p[j].0 == d[i].0;
                        assert(p[j] == t[j]);
                        assert(Label::le_view(t[j], t[t.len() - 2]) || j == t.len() - 2);
                        assert(Label::le_view(t[t.len() - 2], t[t.len() - 1]));
                        assert(lex_le(t[t.len() - 2].0, last.0));
                        if j < t.len() - 2 {
                            assert(lex_le(last.0, t[t.len() - 2].0));
                        }
                        assert(false);
                    }
                }
            }
        }
    }
}

/// The labels of the details view keep, for each key, the value that the
/// last label with that key carries in the configuration, as inserting the
/// reported labels one after another into a map does; and every reported key
/// is there.
pub proof fn lemma_details_labels_last_value(c: ContainerInspect)
    ensures
        forall|i: int| 0 <= i < details_view(c).labels.len() ==> Some(#[trigger] details_view(c).labels[i].1) == last_value(reported_labels(c), details_view(c).labels[i].0),
        forall|k: Seq<char>| #[trigger] has_key(details_view(c).labels, k) <==> has_key(reported_labels(c), k),
{
    lemma_details_lists_sorted(c);
    match c.config {
        Some(cfg) => match cfg.labels {
            Some(l) => {
                lemma_lex_le_order();
                let all = views(l@);
                crate::order::lemma_sort_stable_sorted::<Label>(all);
                let sorted = sort_stable::<Label>(all);
                lemma_last_value_dedup(sorted);
                let out = dedup_keys_keep_last(sorted);
                assert forall|i: int| 0 <= i < out.len() implies Some(#[trigger] out[i].1) == last_value(all, out[i].0) by {
                    lemma_last_value_sort(all, out[i].0);
                }
            },
            None => {},
        },
        None => {},
    }
}

} // verus!
