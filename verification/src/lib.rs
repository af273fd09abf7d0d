//! A wire tap for PostgreSQL: packets and relayed bytes go in, decoded protocol
//! messages come out as filterable, recordable display records.
pub mod text;
pub mod addr;
pub mod net;
pub mod buffer;
pub mod wire;
pub mod render;
pub mod lexer;
pub mod filter;
pub mod flow;
pub mod output;
pub mod reassembly;
pub mod decode;
pub mod state;
pub mod session;
pub mod reader;
pub mod addr_laws;
pub mod proxy;
pub mod capture;
pub mod cli;
pub mod view;
pub mod search;
pub mod command;
pub mod tui;
pub mod screen;
pub mod tls;
pub mod filter_laws;
pub mod state_laws;
pub mod net_laws;
pub mod wire_laws;
pub mod view_laws;
pub mod tui_laws;
pub mod flow_laws;
pub mod edge_laws;
pub mod session_laws;
pub mod decode_laws;
pub mod text_laws;
pub mod render_laws;
