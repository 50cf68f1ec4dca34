//! Collecting the metadata and images of an NFT collection: the links of each
//! token's metadata, the decoding of on-chain token URIs, and the decisions
//! that drive the downloads.
pub mod download;
pub mod hex;
pub mod json;
pub mod numfmt;
pub mod rpc;
pub mod text;
pub mod url;

pub use download::{
    download_file_name, extension_from, failed_meta_paths, img_file_path, meta_file_path,
    nft_dir_names, NftAction, NftDownload, NftEvent, NftStage, TaskQueue, MAX_DOWNLOAD_FAILURES,
};
pub use hex::{h_to_string, try_h_to_string, usize_to_ar_data, HashDecodeError, CALL_DATA_LEN};
pub use json::{extract_rpc_result, parse_json};
pub use rpc::{
    default_rpc_nodes, eth_call_body, ArLinks, ArStep, EthCilent, RpcAction, RpcEvent, RpcRequest,
};
pub use url::{
    convert_to_https, count_from_input, https_meta_urls, trim_input, url_type_from_choice, UrlType,
};
