//! The command line: the device and the two endpoints.
//!
//! The bridge is called as `PROGRAM DEVICE_ID HOST_IP:HOST_PORT
//! CLIENT_IP:CLIENT_PORT`. The device is passed on as it stands. The socket
//! is bound to the host endpoint, and every datagram goes to the client
//! endpoint. What follows these three arguments is not looked at.

use vstd::prelude::*;
use vstd::string::StringExecFns;
use vstd::string::StringSliceAdditionalSpecFns;
use vstd::utf8::encode_utf8;

use crate::endpoint::{get_addr_from_arg, is_endpoint_text, ConfigError, Endpoint};

verus! {

/// What the command line asks for.
#[derive(Clone, Debug, PartialEq, Eq)]
pub struct Config {
    /// The name or address of the sensor, as given.
    pub device_id: String,
    /// The endpoint to which the socket is bound.
    pub host: Endpoint,
    /// The endpoint to which the datagrams go.
    pub client: Endpoint,
}

/// The least number of strings on a command line: the program's name, the
/// device and the two endpoints.
pub const ARGS_NEEDED: usize = 4;

/// Reads the command line, the program's name first.
///
/// With fewer than three arguments after the program's name the answer is
/// `Usage`, whatever the arguments are. Otherwise both endpoints must be
/// well formed, and the configuration holds the device as given and the
/// endpoints that the second and third argument spell.
pub fn parse_args(args: &Vec<String>) -> (r: Result<Config, ConfigError>)
    ensures
        match r {
            Ok(config) => {
                &&& args.len() >= ARGS_NEEDED
                &&& config.device_id@ == args[1]@
                &&& config.host.spelled_by(encode_utf8(args[2]@))
                &&& config.client.spelled_by(encode_utf8(args[3]@))
            },
            Err(ConfigError::Usage) => args.len() < ARGS_NEEDED,
            Err(ConfigError::InvalidAddress) => {
                &&& args.len() >= ARGS_NEEDED
                &&& !is_endpoint_text(encode_utf8(args[2]@)) || !is_endpoint_text(
                    encode_utf8(args[3]@),
                )
            },
        },
{
    if args.len() < ARGS_NEEDED {
        return Err(ConfigError::Usage);
    }
    let host = match get_addr_from_arg(args[2].as_str()) {
        Ok(endpoint) => endpoint,
        Err(e) => {
            return Err(e);
        },
    };
    let client = match get_addr_from_arg(args[3].as_str()) {
        Ok(endpoint) => endpoint,
        Err(e) => {
            return Err(e);
        },
    };
    Ok(Config { device_id: args[1].clone(), host, client })
}

/// The line that tells how the program is called.
pub fn usage(program: &str) -> (r: String)
    ensures
        r@ == "Usage: "@ + program@ + " DEVICE_ID HOST_IP:HOST_PORT CLIENT_IP:CLIENT_PORT"@,
{
    let mut line = String::from_str("Usage: ");
    line.append(program);
    line.append(" DEVICE_ID HOST_IP:HOST_PORT CLIENT_IP:CLIENT_PORT");
    line
}

} // verus!
