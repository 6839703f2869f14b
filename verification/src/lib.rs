pub mod archive;
pub mod resolve;
pub mod text;
pub mod transfer;

pub use archive::{group_drive_item_archives, DriveItem, GroupError};
pub use resolve::{
    assemble_download_info, prepare_download_request, rewrite_download_url, status_is_success,
    DownloadInfo, ResolveError,
};
pub use transfer::{
    plan_transfer, range_header_value, start_progress, transfer_step, LocalPartial, StepOutcome,
    TransferPlan, TransferProgress,
};
