//! Game state, command line and start-up decisions shared by client and
//! server.

use vstd::prelude::*;
use crate::client::ConnectToServerEvent;
use crate::server::HostServerEvent;

verus! {

/// Fixed simulation ticks per second.
pub const TICKS_PER_SECOND: u32 = 128;

/// The state of the game.
#[derive(PartialEq, Eq, Structural, Clone, Copy, Debug, Hash)]
pub enum GameState {
    Loading,
    Playing,
    MainMenu,
}

impl Default for GameState {
    fn default() -> (state: GameState)
        ensures
            state == GameState::Loading,
    {
        GameState::Loading
    }
}

/// The command line: host a server, or connect to one.
#[derive(Clone, Debug)]
pub struct CommandLineArgs {
    pub server: bool,
    pub server_ip: String,
    pub port: u16,
}

/// What the game does at start-up.
#[derive(Debug)]
pub enum StartupRequest {
    HostServer(HostServerEvent),
    ConnectToServer(ConnectToServerEvent),
}

/// The start-up request for the given command line: host on the port when
/// asked to be the server, else connect to the given address and port.
pub open spec fn startup_request_for(args: CommandLineArgs) -> (StartupRequest, GameState) {
    if args.server {
        (StartupRequest::HostServer(HostServerEvent { port: args.port }), GameState::Playing)
    } else {
        (
            StartupRequest::ConnectToServer(
                ConnectToServerEvent { server_ip: args.server_ip, server_port: args.port },
            ),
            GameState::Playing,
        )
    }
}

/// Decides what to do at start-up, and the state the game enters.
pub fn startup_request(args: CommandLineArgs) -> (decision: (StartupRequest, GameState))
    ensures
        decision == startup_request_for(args),
{
    if args.server {
        (StartupRequest::HostServer(HostServerEvent { port: args.port }), GameState::Playing)
    } else {
        (
            StartupRequest::ConnectToServer(
                ConnectToServerEvent { server_ip: args.server_ip, server_port: args.port },
            ),
            GameState::Playing,
        )
    }
}


/// Start-up always enters play; the server hosts on the port it was given,
/// and a client connects to the address and port it was given.
pub proof fn lemma_startup_follows_command_line(args: CommandLineArgs)
    ensures
        startup_request_for(args).1 == GameState::Playing,
        args.server ==> startup_request_for(args).0 == StartupRequest::HostServer(
            HostServerEvent { port: args.port },
        ),
        !args.server ==> startup_request_for(args).0 == StartupRequest::ConnectToServer(
            ConnectToServerEvent { server_ip: args.server_ip, server_port: args.port },
        ),
{
}

} // verus!
