use vstd::prelude::*;

verus! {

/// An address to listen on.
#[derive(Debug, Clone)]
pub struct Address {
    /// The IP address to bind to.
    pub ip: String,
    /// The port to listen on.
    pub port: String,
}

impl Default for Address {
    fn default() -> (r: Address)
        ensures
            r.ip@ == "0.0.0.0"@,
            r.port@ == "300"@,
    {
        Address { ip: String::from_str("0.0.0.0"), port: String::from_str("300") }
    }
}

/// A policy rule for the paths at and below one directory.
#[derive(Debug, Clone)]
pub enum Directive {
    /// `false` denies access; `true` leaves the decision to shallower rules.
    Allow(bool),
    /// Serves the path from below another path.
    Alias(String),
    /// Sends the client to another path, for the directory itself only.
    Redirect(String),
    /// Runs the paths through an interpreter; not supported.
    Interpreter(String),
    /// The paths below the directory are CGI programs.
    Cgi,
    /// The directory is answered by the CGI program at this path.
    ScriptAlias(String),
}

/// A name-based virtual host.
#[derive(Debug, Clone)]
pub struct Server {
    /// The host name that requests give.
    pub name: String,
    /// Where the documents are served from.
    pub root: String,
    /// The directory rules, each a directory and its directive.
    pub directories: Vec<(String, Directive)>,
}

impl Default for Server {
    fn default() -> (r: Server)
        ensures
            r.name@ == "example.com"@,
            r.root@ == "/srv/spartan"@,
            r.directories@.len() == 1,
            r.directories@[0].0@ == "/"@,
            r.directories@[0].1 == Directive::Allow(true),
    {
        let mut directories: Vec<(String, Directive)> = Vec::new();
        directories.push((String::from_str("/"), Directive::Allow(true)));
        Server {
            name: String::from_str("example.com"),
            root: String::from_str("/srv/spartan"),
            directories,
        }
    }
}

/// The server's configuration, loaded once at start-up.
#[derive(Debug, Clone)]
pub struct Config {
    /// The address and port to bind to.
    pub address: Address,
    /// An optional second address, such as one for IPv6.
    pub address1: Option<Address>,
    /// The user the server runs as.
    pub user: String,
    /// The group the server runs as.
    pub group: String,
    /// The number of worker threads.
    pub threads: usize,
    /// Where accesses are logged; standard output when absent.
    pub access_log: Option<String>,
    /// Where errors are logged; standard error when absent.
    pub error_log: Option<String>,
    /// The virtual hosts.
    pub vhosts: Vec<Server>,
}

impl Default for Config {
    fn default() -> (r: Config)
        ensures
            r.address.ip@ == "0.0.0.0"@,
            r.address.port@ == "300"@,
            r.address1 is None,
            r.user@ == "agis"@,
            r.group@ == "agis"@,
            r.threads == 4,
            r.access_log matches Some(l) && l@ == "/var/log/agis/access.log"@,
            r.error_log matches Some(l) && l@ == "/var/log/agis/error.log"@,
            r.vhosts@.len() == 1,
            r.vhosts@[0].name@ == "example.com"@,
    {
        let mut vhosts: Vec<Server> = Vec::new();
        vhosts.push(Server::default());
        Config {
            address: Address::default(),
            address1: None,
            user: String::from_str("agis"),
            group: String::from_str("agis"),
            threads: 4,
            access_log: Some(String::from_str("/var/log/agis/access.log")),
            error_log: Some(String::from_str("/var/log/agis/error.log")),
            vhosts,
        }
    }
}

/// `i` is the first host named `name`.
pub open spec fn first_named(hosts: Seq<Server>, name: Seq<char>, i: int) -> bool {
    &&& 0 <= i < hosts.len()
    &&& hosts[i].name@ == name
    &&& forall|j: int| 0 <= j < i ==> hosts[j].name@ != name
}

impl Config {
    /// The position of the first virtual host named `name`.
    pub fn find_host(&self, name: &String) -> (r: Option<usize>)
        ensures
            r matches Some(i) ==> first_named(self.vhosts@, name@, i as int),
            r is None ==> forall|j: int| 0 <= j < self.vhosts@.len() ==> self.vhosts@[j].name@ != name@,
    {
        let mut i: usize = 0;
        while i < self.vhosts.len()
            invariant
                i <= self.vhosts@.len(),
                forall|j: int| 0 <= j < i ==> self.vhosts@[j].name@ != name@,
            decreases self.vhosts@.len() - i,
        {
            if self.vhosts[i].name == *name {
                return Some(i);
            }
            i = i + 1;
        }
        None
    }
}

} // verus!
