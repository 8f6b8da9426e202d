//! Chunked, streamed file transfer: the protocol's decisions, proved.
mod channel;
mod chunking;
mod consume;
mod download;
mod error;
mod listing;
mod paths;
mod service;
mod upload;

pub use chunking::{
    chunks_of, lemma_chunks_flatten, producer_step, split_into_chunks, ProducerAction, ReadEvent,
    CHUNK_SIZE, QUEUE_CAPACITY,
};
pub use error::{
    code_of, error_of_code, lemma_status_code_round_trip, TransferError, CODE_CANCELLED,
    CODE_INTERNAL, CODE_INVALID_ARGUMENT, CODE_NOT_FOUND, CODE_UNAVAILABLE,
};
pub use paths::{check_plain_name, is_plain_name, join_path, joined, resolve_under};
pub use upload::{
    creates_destination, lemma_upload_needs_name_first, lemma_upload_round_trip, messages_view,
    receive_prefix, receive_upload, upload_messages, upload_outcome, upload_sequence, MessageView,
    UploadMessage, UploadReceiver, UploadStep,
};
pub use download::{
    download_outcome, items_view, lemma_download_round_trip, lemma_independent_downloads,
    lemma_missing_download, lemma_transfer_round_trip, receive_download, serve_download,
    served_items, DownloadItem,
};
pub use listing::{
    collect_listing, collected, count_named, ended_in_error, entries_view, entry_of, is_regular,
    lemma_file_listed_once, lemma_listing_regular_files, list_entries, list_step, list_view, listing_of, walk_view,
    DirEntryInfo, DirEntryView, FileEntry, FileEntryView, ListItem, WalkItem,
};
pub use channel::{
    authority_of, client_mode, client_security, create_uri, decimal, digit_char, ip_view,
    port_text, server_mode, server_security, uri_of, ClientSecurity, ConfigError, ServerSecurity,
};
pub use service::{Commands, FileServiceImpl};
