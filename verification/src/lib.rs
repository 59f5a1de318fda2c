//! Framed messages over shared-memory rings: the byte-level framing, the
//! spill buffers of both ends, and the bookkeeping of clients and servers.
//!
//! The rings themselves are reached only through `unsafe` calls; the library
//! decides what goes into a ring's window and what a chunk read from it means,
//! and its callers hand those windows and chunks in.

mod client;
mod codec;
mod duplex;
mod endian;
mod errors;
mod server;
mod stream;
mod types;

pub use crate::client::{
    after_event, event_result, known_event, lemma_event_readiness, lemma_event_socket_outcome,
    lemma_settle_waits_only_on_would_block, on_stream_ready, settle, settle_result, time_left,
    total_nanos, ClientState, ClientView, SocketAction, NANOS_PER_SEC, RX, SOCK, TX,
};
pub use crate::codec::{
    frame, frames, header_for, header_len, min_len, read_header, write_slice,
    write_vec_deque_and_trunc,
};
pub use crate::duplex::{
    delivered_bytes, delivery_fits, is_frame_prefix, is_whole_frame, lemma_same_header,
    lemma_step_cases, step_delivers, step_len, step_taken, BufReceiver, BufSender, Delivery,
};
pub use crate::endian::{
    le_bytes, le_value, lemma_ne_bytes_value, lemma_ne_value_bytes, ne_bytes, ne_value, pow256, SIZE,
};
pub use crate::errors::{io_error_kind_of, would_block, IoErrorKind, ShamanError};
pub use crate::server::{
    broadcast_outcome, broadcast_result, issued, lemma_broadcast_fails_if_any_failed, lemma_broadcast_reports_last_failure,
    lemma_broadcast_succeeds_if_all_succeeded,
    lemma_accepted_socket_dispatch, lemma_close_and_establish_only_open_sockets,
    lemma_dispatch_other_events, lemma_hang_up_closes, lemma_readable_establishes, lemma_closed_connection_forgotten,
    lemma_established_rings_dispatch, lemma_receive_token_dispatch, lemma_send_token_dispatch,
    lemma_server_token_accepts, spec_accept, spec_close,
    spec_dispatch, spec_establish, table_wf, unused, ConnectionTable, Dispatch, MessageHandler,
    TableView, SERVER_TOKEN,
};
pub use crate::stream::{
    delivered_by, lemma_accept_extends_stream, lemma_delivered_in_order, lemma_flush_keeps_stream,
    lemma_frames_injective, lemma_frames_prefix, lemma_frames_push, lemma_header_announces_length,
    lemma_receive_keeps_stream, lemma_receive_progress, lemma_whole_frame_delivered, lengths_fit,
    lemma_all_delivered, lemma_available_frame_is_delivered, lemma_delivers_first_frame,
    lemma_flush_when_flushed_is_noop, lemma_frame_into_full_ring_keeps_frame, lemma_frame_not_prefix,
    lemma_quiet_run_holds_no_frame, lemma_send_run_keeps_order,
    lemma_step_outcome, quiet_run, send_run, send_run_allowed, send_step, send_step_allowed,
    SendState, SendStep,
};
pub use crate::types::{ConnId, Request, Response};
