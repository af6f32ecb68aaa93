//! Typed errors of the control plane, each with its message text and the
//! HTTP status code it maps to.

use vstd::prelude::*;

use crate::text::{dec_str, usize_to_string};

verus! {

/// Authentication failures.
#[derive(Clone, Debug)]
pub enum AuthError {
    UnauthorizedUser,
    InvalidToken,
}

impl AuthError {
    /// The HTTP status this error maps to.
    pub fn status_code(&self) -> (r: u16)
        ensures
            r == match *self {
                AuthError::UnauthorizedUser => 401u16,
                AuthError::InvalidToken => 400u16,
            },
    {
        match self {
            AuthError::UnauthorizedUser => 401,
            AuthError::InvalidToken => 400,
        }
    }

    pub fn message(&self) -> (r: String)
        ensures
            r@ == match *self {
                AuthError::UnauthorizedUser => "Unauthorized user"@,
                AuthError::InvalidToken => "Invalid token"@,
            },
    {
        match self {
            AuthError::UnauthorizedUser => "Unauthorized user".to_owned(),
            AuthError::InvalidToken => "Invalid token".to_owned(),
        }
    }
}

/// Failures of the admission operations.
#[derive(Clone, Debug)]
pub enum InstanceError {
    InvalidArgs(String),
    AlreadyExists,
    InstanceNotFound,
    AlreadyDeleted,
    NotYetStopped,
    QuotaExceeded { resource: String, quota: usize, remaining: usize, requested: usize, unit: String },
    ImageUnavailable { image: String, runtime: String },
    StoragePoolCannotBeSpecified { runtime: String },
    UnknownNode(String),
    UnknownStoragePool(String),
    ResourceExhausted,
    RuntimeIncompatible { current: String, target: String },
    CreateFailed,
    DeleteFailed,
    UpdateFailed,
    StartFailed,
    StopFailed,
    UnsupportedImage,
    UnsupportedRuntime,
}

/// Mathematical view of `InstanceError`.
pub ghost enum ErrorView {
    InvalidArgs(Seq<char>),
    AlreadyExists,
    InstanceNotFound,
    AlreadyDeleted,
    NotYetStopped,
    QuotaExceeded { resource: Seq<char>, quota: int, remaining: int, requested: int, unit: Seq<char> },
    ImageUnavailable { image: Seq<char>, runtime: Seq<char> },
    StoragePoolCannotBeSpecified { runtime: Seq<char> },
    UnknownNode(Seq<char>),
    UnknownStoragePool(Seq<char>),
    ResourceExhausted,
    RuntimeIncompatible { current: Seq<char>, target: Seq<char> },
    CreateFailed,
    DeleteFailed,
    UpdateFailed,
    StartFailed,
    StopFailed,
    UnsupportedImage,
    UnsupportedRuntime,
}

impl View for InstanceError {
    type V = ErrorView;

    open spec fn view(&self) -> ErrorView {
        match self {
            InstanceError::InvalidArgs(f) => ErrorView::InvalidArgs(f@),
            InstanceError::AlreadyExists => ErrorView::AlreadyExists,
            InstanceError::InstanceNotFound => ErrorView::InstanceNotFound,
            InstanceError::AlreadyDeleted => ErrorView::AlreadyDeleted,
            InstanceError::NotYetStopped => ErrorView::NotYetStopped,
            InstanceError::QuotaExceeded { resource, quota, remaining, requested, unit } =>
                ErrorView::QuotaExceeded {
                    resource: resource@,
                    quota: *quota as int,
                    remaining: *remaining as int,
                    requested: *requested as int,
                    unit: unit@,
                },
            InstanceError::ImageUnavailable { image, runtime } => ErrorView::ImageUnavailable {
                image: image@,
                runtime: runtime@,
            },
            InstanceError::StoragePoolCannotBeSpecified { runtime } =>
                ErrorView::StoragePoolCannotBeSpecified { runtime: runtime@ },
            InstanceError::UnknownNode(n) => ErrorView::UnknownNode(n@),
            InstanceError::UnknownStoragePool(p) => ErrorView::UnknownStoragePool(p@),
            InstanceError::ResourceExhausted => ErrorView::ResourceExhausted,
            InstanceError::RuntimeIncompatible { current, target } =>
                ErrorView::RuntimeIncompatible { current: current@, target: target@ },
            InstanceError::CreateFailed => ErrorView::CreateFailed,
            InstanceError::DeleteFailed => ErrorView::DeleteFailed,
            InstanceError::UpdateFailed => ErrorView::UpdateFailed,
            InstanceError::StartFailed => ErrorView::StartFailed,
            InstanceError::StopFailed => ErrorView::StopFailed,
            InstanceError::UnsupportedImage => ErrorView::UnsupportedImage,
            InstanceError::UnsupportedRuntime => ErrorView::UnsupportedRuntime,
        }
    }
}

/// The message text of each error.
pub open spec fn error_message_spec(e: ErrorView) -> Seq<char> {
    match e {
        ErrorView::InvalidArgs(f) => "Invalid arg `"@ + f + "`"@,
        ErrorView::AlreadyExists => "Instance already exists"@,
        ErrorView::InstanceNotFound => "Instance not found"@,
        ErrorView::AlreadyDeleted => "Instance is already deleted"@,
        ErrorView::NotYetStopped => "Instance is not yet stoppped"@,
        ErrorView::QuotaExceeded { resource, quota, remaining, requested, unit } => resource
            + " quota exceeded, quota: "@ + dec_str(quota) + unit + ", remaining: "@ + dec_str(
            remaining,
        ) + unit + ", requested: "@ + dec_str(requested) + unit,
        ErrorView::ImageUnavailable { image, runtime } => "Image "@ + image
            + " is unavailable for runtime "@ + runtime,
        ErrorView::StoragePoolCannotBeSpecified { runtime } =>
            "Storage pool cannot be specified for runtime "@ + runtime,
        ErrorView::UnknownNode(n) => "Unknown node "@ + n,
        ErrorView::UnknownStoragePool(p) => "Unknown storage pool "@ + p,
        ErrorView::ResourceExhausted => "No node has enough resources"@,
        ErrorView::RuntimeIncompatible { current, target } => "Runtime "@ + current
            + " is incompatible with "@ + target,
        ErrorView::CreateFailed => "Create instance failed"@,
        ErrorView::DeleteFailed => "Delete instance failed"@,
        ErrorView::UpdateFailed => "Update instance failed"@,
        ErrorView::StartFailed => "Start instance failed"@,
        ErrorView::StopFailed => "Stop instance failed"@,
        ErrorView::UnsupportedImage => "Unsupported image"@,
        ErrorView::UnsupportedRuntime => "Unsupported runtime"@,
    }
}

/// The HTTP status of each error: malformed input and illegal transitions
/// are client errors, exceeded quotas and exhausted capacity are
/// unprocessable, persistence failures are server errors.
pub open spec fn error_status_spec(e: ErrorView) -> u16 {
    match e {
        ErrorView::InvalidArgs(_) => 400u16,
        ErrorView::AlreadyExists => 409u16,
        ErrorView::InstanceNotFound => 404u16,
        ErrorView::AlreadyDeleted => 400u16,
        ErrorView::NotYetStopped => 400u16,
        ErrorView::QuotaExceeded { .. } => 422u16,
        ErrorView::ImageUnavailable { .. } => 400u16,
        ErrorView::StoragePoolCannotBeSpecified { .. } => 400u16,
        ErrorView::UnknownNode(_) => 400u16,
        ErrorView::UnknownStoragePool(_) => 400u16,
        ErrorView::ResourceExhausted => 422u16,
        ErrorView::RuntimeIncompatible { .. } => 400u16,
        ErrorView::CreateFailed => 500u16,
        ErrorView::DeleteFailed => 500u16,
        ErrorView::UpdateFailed => 500u16,
        ErrorView::StartFailed => 500u16,
        ErrorView::StopFailed => 500u16,
        ErrorView::UnsupportedImage => 400u16,
        ErrorView::UnsupportedRuntime => 400u16,
    }
}

impl InstanceError {
    /// The HTTP status this error maps to.
    pub fn status_code(&self) -> (r: u16)
        ensures
            r == error_status_spec(self@),
    {
        match self {
            InstanceError::InvalidArgs(_) => 400,
            InstanceError::AlreadyExists => 409,
            InstanceError::InstanceNotFound => 404,
            InstanceError::AlreadyDeleted => 400,
            InstanceError::NotYetStopped => 400,
            InstanceError::QuotaExceeded { .. } => 422,
            InstanceError::ImageUnavailable { .. } => 400,
            InstanceError::StoragePoolCannotBeSpecified { .. } => 400,
            InstanceError::UnknownNode(_) => 400,
            InstanceError::UnknownStoragePool(_) => 400,
            InstanceError::ResourceExhausted => 422,
            InstanceError::RuntimeIncompatible { .. } => 400,
            InstanceError::CreateFailed => 500,
            InstanceError::DeleteFailed => 500,
            InstanceError::UpdateFailed => 500,
            InstanceError::StartFailed => 500,
            InstanceError::StopFailed => 500,
            InstanceError::UnsupportedImage => 400,
            InstanceError::UnsupportedRuntime => 400,
        }
    }

    /// The message text of this error.
    pub fn message(&self) -> (r: String)
        ensures
            r@ == error_message_spec(self@),
    {
        match self {
            InstanceError::InvalidArgs(f) => {
                let mut s = "Invalid arg `".to_owned();
                s.append(f.as_str());
                s.append("`");
                s
            },
            InstanceError::AlreadyExists => "Instance already exists".to_owned(),
            InstanceError::InstanceNotFound => "Instance not found".to_owned(),
            InstanceError::AlreadyDeleted => "Instance is already deleted".to_owned(),
            InstanceError::NotYetStopped => "Instance is not yet stoppped".to_owned(),
            InstanceError::QuotaExceeded { resource, quota, remaining, requested, unit } => {
                let mut s = resource.clone();
                s.append(" quota exceeded, quota: ");
                let q = usize_to_string(*quota);
                s.append(q.as_str());
                s.append(unit.as_str());
                s.append(", remaining: ");
                let rm = usize_to_string(*remaining);
                s.append(rm.as_str());
                s.append(unit.as_str());
                s.append(", requested: ");
                let rq = usize_to_string(*requested);
                s.append(rq.as_str());
                s.append(unit.as_str());
                s
            },
            InstanceError::ImageUnavailable { image, runtime } => {
                let mut s = "Image ".to_owned();
                s.append(image.as_str());
                s.append(" is unavailable for runtime ");
                s.append(runtime.as_str());
                s
            },
            InstanceError::StoragePoolCannotBeSpecified { runtime } => {
                let mut s = "Storage pool cannot be specified for runtime ".to_owned();
                s.append(runtime.as_str());
                s
            },
            InstanceError::UnknownNode(n) => {
                let mut s = "Unknown node ".to_owned();
                s.append(n.as_str());
                s
            },
            InstanceError::UnknownStoragePool(p) => {
                let mut s = "Unknown storage pool ".to_owned();
                s.append(p.as_str());
                s
            },
            InstanceError::ResourceExhausted => "No node has enough resources".to_owned(),
            InstanceError::RuntimeIncompatible { current, target } => {
                let mut s = "Runtime ".to_owned();
                s.append(current.as_str());
                s.append(" is incompatible with ");
                s.append(target.as_str());
                s
            },
            InstanceError::CreateFailed => "Create instance failed".to_owned(),
            InstanceError::DeleteFailed => "Delete instance failed".to_owned(),
            InstanceError::UpdateFailed => "Update instance failed".to_owned(),
            InstanceError::StartFailed => "Start instance failed".to_owned(),
            InstanceError::StopFailed => "Stop instance failed".to_owned(),
            InstanceError::UnsupportedImage => "Unsupported image".to_owned(),
            InstanceError::UnsupportedRuntime => "Unsupported runtime".to_owned(),
        }
    }
}

} // verus!
