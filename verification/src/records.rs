use vstd::prelude::*;

verus! {

// ---------------------------------------------------------------------------
// The records of the relational store the engine sits next to -- users,
// storages, favorites, links, passkeys -- and the request bodies of the
// file-manipulation endpoints. The engine treats the store as an external
// collaborator; these are the plain shapes it exchanges with it.
// ---------------------------------------------------------------------------

pub struct CreateUserDto {
    pub name: String,
    pub email: String,
    pub password: String,
}

pub struct User {
    pub id: i64,
    pub name: String,
    pub email: String,
    pub password: String,
    pub avatar: String,
    pub disabled: bool,
    pub login_failure_count: i64,
    pub created_at: String,
    pub updated_at: String,
}

pub struct Passkey {
    pub id: i64,
    pub user_id: i64,
    pub credential_id: String,
    pub public_key: Vec<u8>,
    pub counter: u32,
    pub name: String,
    pub created_at: String,
    pub last_used_at: String,
}

pub struct FavoriteDatabase {
    pub id: i64,
    pub name: String,
    pub user_id: i64,
    pub storage_id: i64,
    pub path: String,
    pub icon: String,
    pub created_at: String,
    pub updated_at: String,
}

pub struct CreateFavoriteDto {
    pub name: String,
    pub path: String,
    pub icon: String,
    pub user_id: i64,
    pub storage_id: i64,
}

pub struct FavoriteDto {
    pub id: i64,
    pub name: String,
    pub path: String,
    pub icon: String,
}

pub struct CreateFavorite {
    pub name: String,
    pub path: String,
    pub icon: String,
}

pub struct LinkDatabase {
    pub id: i64,
    pub name: String,
    pub path: String,
    pub icon: String,
    pub created_at: String,
    pub updated_at: String,
}

pub struct CreateLinkDto {
    pub name: String,
    pub path: String,
    pub icon: String,
}

pub struct StorageDatabase {
    pub id: i64,
    pub name: String,
    pub path: String,
    pub local_path: String,
    pub icon: String,
    pub kind: String,
    pub max_file_size: u64,
    pub allow_extensions: String,
    pub block_extensions: String,
    pub disabled: bool,
    pub sort_index: i64,
    pub created_at: String,
    pub updated_at: String,
}

pub struct CreateStorageDto {
    pub name: String,
    pub path: String,
    pub local_path: String,
    pub icon: String,
    pub kind: String,
    pub max_file_size: u64,
    pub allow_extensions: String,
    pub block_extensions: String,
    pub sort_index: i64,
}

pub struct UpdateStorageDto {
    pub name: String,
    pub path: String,
    pub local_path: String,
    pub icon: String,
    pub kind: String,
}

pub struct SaveFileContentDto {
    pub content: String,
}

pub struct ExtractFileDto {
    pub name: String,
}

pub struct CompressDirectoryDto {
    pub name: String,
}

pub struct MoveFileDto {
    pub from: String,
    pub to: String,
}

pub struct AbortFileDto {
    pub file: String,
}

pub struct CancelRemoteDownloadRequest {
    pub id: String,
}

pub struct CreateRemoteDownloadRequest {
    pub urls: Vec<String>,
}

} // verus!
