//! The reverse proxy's verified parts: header preparation, upstream URLs,
//! the billable request transform and the billable pipeline's stages.

pub mod headers;
pub mod pipeline;
pub mod request_transform;
pub mod upstream;

pub use headers::{
    hop_by_hop_filter, prepare_response_headers, prepare_upstream_request_headers,
    strip_content_length, HOP_BY_HOP,
};
pub use pipeline::{MAX_MUTATE_BODY_BYTES, MAX_REQUEST_BODY_BYTES};
pub use request_transform::include_stream_usage;
pub use upstream::build_upstream_url;
