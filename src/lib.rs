pub mod text;
pub mod models;
pub mod client_manager;
pub mod generator;
pub mod udp_sender;
pub mod tcp_server;

pub use crate::client_manager::ClientManager;
pub use crate::generator::QuoteGenerator;
pub use crate::models::{ClientConfig, Command, CommandError, StockQuote};
pub use crate::tcp_server::{handle_command, handle_line, Outcome, SessionState};
pub use crate::udp_sender::UdpSender;
