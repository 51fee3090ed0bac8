//! A unified virtual-filesystem core: a normalized object model shared by
//! heterogeneous storage backends, the credential lifecycle and retry policy
//! used by the authenticated ones, the chunked-upload planner, and the
//! provider registry that keeps configured backend instances.

mod capability;
mod chunks;
mod digits;
mod filesystem;
mod google;
mod httpflow;
mod native;
mod objectstore;
mod onedrive;
mod paths;
mod registry;
mod retry;
mod s3;
mod time;
mod token;

pub use capability::Provider;
pub use capability::Trash;
pub use chunks::Chunk;
pub use chunks::chunk_count;
pub use chunks::concat_chunks;
pub use chunks::lemma_chunk_count_is_ceiling;
pub use chunks::lemma_chunk_plan_reconstructs;
pub use chunks::UPLOAD_CHUNK_ALIGNMENT;
pub use chunks::content_range_value;
pub use chunks::plan_chunks;
pub use digits::decimal_digits;
pub use digits::u64_to_decimal;
pub use filesystem::File;
pub use filesystem::FileType;
pub use filesystem::FsError;
pub use filesystem::Metadata;
pub use filesystem::ObjectId;
pub use filesystem::Permissions;
pub use filesystem::User;
pub use filesystem::UserId;
pub use google::DriveRawFile;
pub use google::GoogleDrive;
pub use google::drive_children_query;
pub use google::file_from_drive;
pub use httpflow::find_query_param;
pub use httpflow::query_of;
pub use httpflow::query_param;
pub use httpflow::request_target;
pub use httpflow::redirect_code_and_state;
pub use httpflow::redirect_response;
pub use httpflow::request_target_of;
pub use native::NativeFs;
pub use native::native_entry_metadata;
pub use native::native_entry_ok;
pub use native::native_file_type;
pub use native::RawDirEntry;
pub use native::RawMetadata;
pub use objectstore::ObjectStore;
pub use objectstore::child_entry;
pub use objectstore::dir_entries;
pub use objectstore::directory_present;
pub use objectstore::directory_requested;
pub use objectstore::is_child_key;
pub use objectstore::lemma_create_then_listed;
pub use objectstore::lemma_rename_round_trip;
pub use objectstore::lemma_write_read_round_trip;
pub use objectstore::listing_prefix;
pub use onedrive::DriveItemRaw;
pub use onedrive::OneDrive;
pub use onedrive::file_from_item;
pub use onedrive::metadata_from_item_url;
pub use onedrive::upload_content_url;
pub use onedrive::use_root_location;
pub use registry::ProviderConfig;
pub use registry::config_accepted;
pub use registry::instance_matches;
pub use registry::lemma_provider_file_name_round_trip;
pub use registry::lemma_registry_persistence_round_trip;
pub use registry::parsed_provider_file;
pub use registry::pid_view;
pub use registry::provider_file_name_spec;
pub use registry::provider_type_name;
pub use registry::record_instance_ok;
pub use registry::record_reachable;
pub use registry::reg_lookup;
pub use registry::ProviderId;
pub use registry::ProviderInstance;
pub use registry::ProviderType;
pub use registry::ProvidersMap;
pub use registry::ProvidersOptions;
pub use registry::parse_provider_file_name;
pub use registry::provider_file_name;
pub use retry::Attempt;
pub use retry::RetryStep;
pub use retry::after_first_attempt;
pub use retry::after_retry;
pub use retry::call_with_retry;
pub use s3::RawObject;
pub use s3::bucket_key;
pub use s3::raw_entry_set;
pub use s3::S3;
pub use s3::S3Credentials;
pub use s3::list_folder_entries;
pub use s3::rename_keys;
pub use s3::settle_copy_then_delete;
pub use time::parse_rfc3339_seconds;
pub use time::rfc3339_seconds;
pub use token::AuthToken;
pub use token::joined_scopes;
pub use token::scope_lookup;
pub use token::RefreshPlan;
pub use token::ScopeEntry;
pub use token::TokenStorage;
pub use token::TokenStorageStrategy;
pub use paths::child_path;
pub use paths::first_segment;
pub use paths::first_slash;
pub use paths::last_segment;
pub use paths::last_slash;
pub use paths::renamed_path;
