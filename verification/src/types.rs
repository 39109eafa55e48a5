use vstd::prelude::*;

verus! {

/// The mathematical content of a `Service`.
pub struct ServiceV {
    pub domain: Seq<char>,
    pub port: u16,
    pub pid: u32,
    pub directory: Seq<char>,
}

/// A registered service: a domain tied to a live backend.
#[derive(Debug)]
pub struct Service {
    pub domain: String,
    pub port: u16,
    pub pid: u32,
    pub directory: String,
}

impl View for Service {
    type V = ServiceV;

    open spec fn view(&self) -> ServiceV {
        ServiceV {
            domain: self.domain@,
            port: self.port,
            pid: self.pid,
            directory: self.directory@,
        }
    }
}

impl Clone for Service {
    fn clone(&self) -> (r: Self)
        ensures
            r@ == self@,
    {
        Service {
            domain: self.domain.clone(),
            port: self.port,
            pid: self.pid,
            directory: self.directory.clone(),
        }
    }
}

/// The views of a sequence of services.
pub open spec fn views_of(s: Seq<Service>) -> Seq<ServiceV> {
    s.map_values(|x: Service| x@)
}

/// The mathematical content of a `Request`.
pub enum ReqV {
    Register { domain: Seq<char>, port: u16, pid: u32, directory: Seq<char> },
    Unregister { domain: Seq<char> },
    GetPort,
    List,
    Stop { domain: Seq<char> },
    Shutdown,
    HttpsStatus,
}

/// A control-plane request, one JSON value per line on the rendezvous socket.
#[derive(Debug)]
pub enum Request {
    /// Register a new service.
    Register { domain: String, port: u16, pid: u32, directory: String },
    /// Unregister a service.
    Unregister { domain: String },
    /// Get an available port.
    GetPort,
    /// List all services.
    List,
    /// Stop a service by domain.
    Stop { domain: String },
    /// Shutdown the daemon.
    Shutdown,
    /// Ask whether the HTTPS listener is active.
    HttpsStatus,
}

impl View for Request {
    type V = ReqV;

    open spec fn view(&self) -> ReqV {
        match self {
            Request::Register { domain, port, pid, directory } => ReqV::Register {
                domain: domain@,
                port: *port,
                pid: *pid,
                directory: directory@,
            },
            Request::Unregister { domain } => ReqV::Unregister { domain: domain@ },
            Request::GetPort => ReqV::GetPort,
            Request::List => ReqV::List,
            Request::Stop { domain } => ReqV::Stop { domain: domain@ },
            Request::Shutdown => ReqV::Shutdown,
            Request::HttpsStatus => ReqV::HttpsStatus,
        }
    }
}

/// The mathematical content of a `Response`.
pub enum RespV {
    Okay(Option<Seq<char>>),
    Port(u16),
    Services(Seq<ServiceV>),
    Error(Seq<char>),
    HttpsEnabled(bool),
}

/// A control-plane response, exactly one per request.
#[derive(Debug)]
pub enum Response {
    /// Success with an optional message.
    Okay(Option<String>),
    /// Assigned port number.
    Port(u16),
    /// List of services.
    Services(Vec<Service>),
    /// Error message.
    Error(String),
    /// Whether the HTTPS listener is active.
    HttpsEnabled(bool),
}

impl View for Response {
    type V = RespV;

    open spec fn view(&self) -> RespV {
        match self {
            Response::Okay(m) => RespV::Okay(
                match m {
                    Some(s) => Some(s@),
                    None => None,
                },
            ),
            Response::Port(p) => RespV::Port(*p),
            Response::Services(v) => RespV::Services(views_of(v@)),
            Response::Error(s) => RespV::Error(s@),
            Response::HttpsEnabled(b) => RespV::HttpsEnabled(*b),
        }
    }
}

} // verus!
