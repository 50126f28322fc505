use vstd::prelude::*;

verus! {

/// What the manager is started with: the address it listens on.
pub struct ManagerConfig {
    pub host: String,
    pub port: String,
}

/// What a server is started with: the manager's address, its own address,
/// and the number of clients it takes (as text, the way it is sent).
pub struct ServerConfig {
    pub manager_host: String,
    pub manager_port: String,
    pub server_host: String,
    pub server_port: String,
    pub max_clients: String,
}

/// What a client is started with: the manager's address and its own.
pub struct ClientConfig {
    pub manager_host: String,
    pub manager_port: String,
    pub client_host: String,
    pub client_port: String,
}

/// The manager's command line, program name first: exactly a host and a
/// port.
pub fn manager_config(args: &Vec<String>) -> (res: Option<ManagerConfig>)
    ensures
        res is Some <==> args@.len() == 3,
        res matches Some(c) ==> c.host@ == args@[1]@ && c.port@ == args@[2]@,
{
    if args.len() != 3 {
        return None;
    }
    Some(ManagerConfig { host: args[1].clone(), port: args[2].clone() })
}

/// A server's command line, program name first: the manager's host and
/// port, the server's host and port, and optionally the number of clients
/// it takes, one when left out.
pub fn server_config(args: &Vec<String>) -> (res: Option<ServerConfig>)
    ensures
        res is Some <==> 5 <= args@.len() <= 6,
        res matches Some(c) ==> {
            &&& c.manager_host@ == args@[1]@
            &&& c.manager_port@ == args@[2]@
            &&& c.server_host@ == args@[3]@
            &&& c.server_port@ == args@[4]@
            &&& c.max_clients@ == if args@.len() == 5 {
                "1"@
            } else {
                args@[5]@
            }
        },
{
    if args.len() < 5 || args.len() > 6 {
        return None;
    }
    let max_clients = if args.len() == 5 {
        String::from_str("1")
    } else {
        args[5].clone()
    };
    Some(
        ServerConfig {
            manager_host: args[1].clone(),
            manager_port: args[2].clone(),
            server_host: args[3].clone(),
            server_port: args[4].clone(),
            max_clients,
        },
    )
}

/// A client's command line, program name first: the manager's host and
/// port, then the client's own.
pub fn client_config(args: &Vec<String>) -> (res: Option<ClientConfig>)
    ensures
        res is Some <==> args@.len() == 5,
        res matches Some(c) ==> {
            &&& c.manager_host@ == args@[1]@
            &&& c.manager_port@ == args@[2]@
            &&& c.client_host@ == args@[3]@
            &&& c.client_port@ == args@[4]@
        },
{
    if args.len() != 5 {
        return None;
    }
    Some(
        ClientConfig {
            manager_host: args[1].clone(),
            manager_port: args[2].clone(),
            client_host: args[3].clone(),
            client_port: args[4].clone(),
        },
    )
}

} // verus!
