use vstd::prelude::*;

verus! {

// ---------------------------------------------------------------------------
// The records exchanged with the authentication, setup and profile
// endpoints. The engine only stamps session and task ownership with these;
// password hashing and token issuance live outside it.
// ---------------------------------------------------------------------------

/// The claims carried by an access token.
pub struct Claims {
    pub sub: String,
    pub exp: usize,
    pub iat: usize,
}

pub struct LoginRequest {
    pub username: String,
    pub password: String,
}

pub struct LoginResponse {
    pub success: bool,
    pub token: Option<String>,
    pub message: String,
}

pub struct LoginDto {
    pub email: String,
    pub password: String,
}

pub struct UserInfo {
    pub username: String,
    pub email: String,
}

pub struct UserResponse {
    pub id: i64,
    pub name: String,
    pub avatar: String,
    pub email: String,
}

pub struct FileConfigInfo {
    pub max_file_size_mb: u64,
    pub allowed_extensions: Vec<String>,
    pub blocked_extensions: Vec<String>,
}

pub struct DirectoryInfo {
    pub id: String,
    pub name: String,
    pub description: String,
    pub icon: String,
    pub default: bool,
    pub storage_type: String,
}

pub struct VerifyResponse {
    pub user: UserInfo,
    pub file_config: FileConfigInfo,
    pub directories: Vec<DirectoryInfo>,
}

pub struct SetupRequest {
    pub username: String,
    pub password: String,
    pub email: String,
}

pub struct SetupResponse {
    pub success: bool,
    pub message: String,
    pub token: Option<String>,
}

pub struct SetupStatusResponse {
    pub needs_setup: bool,
}

pub struct UserProfileResponse {
    pub id: i64,
    pub name: String,
    pub email: String,
    pub avatar: String,
}

pub struct UpdateProfileDto {
    pub name: String,
    pub avatar: String,
}

pub struct UpdatePasswordDto {
    pub old_password: String,
    pub new_password: String,
}

/// The authenticated principal, by its user identifier.
pub struct AuthUser(pub i64);

} // verus!
