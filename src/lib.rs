//! A language-server core for `.http` request files: a verified parser for
//! delimited request blocks, the document store and the decisions that turn
//! editor requests into affordances, dispatches and transcript records.

pub mod text;
pub mod text_map;
pub mod url_check;
pub mod parser;
pub mod response;
pub mod session;
pub mod dispatch;
pub mod extension;

pub use dispatch::{
    after_send, after_write, choose_output_directory, command_target, format_response_output,
    missing_document_message, output_directory, plan_send, render_exchange, request_at_line,
    send_request_command, transcript_record, AfterSend, Dispatch, Notice,
};
pub use extension::{
    get_binary_name_for_platform, cached_binary_path, dev_binary_path, find_asset,
    missing_asset_message, needs_executable_bit, HostArch, HostOs, HttpClient,
};
pub use parser::{parse_block_lines, parse_http_file, HttpRequest};
pub use response::{outgoing_body, request_verb, HttpResponse, Verb};
pub use session::{action_for, action_in, lenses_for, lenses_in, Affordance, DocumentStore};
pub use text_map::TextMap;
pub use url_check::{check_parsed_url, validate_url};
