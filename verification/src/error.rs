//! What a failed request is answered with.
use crate::duplicate::Duplicate;
use crate::text;
use vstd::prelude::*;

verus! {

#[derive(Debug)]
pub enum AppError {
    NotFound,
    Invalid(String),
    VersionNotFound(String),
    Busy,
    Updating,
    Package(String),
    Internal(String),
    Update(String),
    System(String),
}

pub enum AppErrorView {
    NotFound,
    Invalid(Seq<char>),
    VersionNotFound(Seq<char>),
    Busy,
    Updating,
    Package(Seq<char>),
    Internal(Seq<char>),
    Update(Seq<char>),
    System(Seq<char>),
}

impl DeepView for AppError {
    type V = AppErrorView;

    open spec fn deep_view(&self) -> AppErrorView {
        match self {
            AppError::NotFound => AppErrorView::NotFound,
            AppError::Invalid(s) => AppErrorView::Invalid(s@),
            AppError::VersionNotFound(s) => AppErrorView::VersionNotFound(s@),
            AppError::Busy => AppErrorView::Busy,
            AppError::Updating => AppErrorView::Updating,
            AppError::Package(s) => AppErrorView::Package(s@),
            AppError::Internal(s) => AppErrorView::Internal(s@),
            AppError::Update(s) => AppErrorView::Update(s@),
            AppError::System(s) => AppErrorView::System(s@),
        }
    }
}

impl AppErrorView {
    /// What the error says.
    pub open spec fn message(self) -> Seq<char> {
        match self {
            AppErrorView::NotFound => "未找到 Compose 项目或服务"@,
            AppErrorView::Invalid(s) => "请求格式无效: "@ + s,
            AppErrorView::VersionNotFound(s) => "版本不存在: "@ + s,
            AppErrorView::Busy => "项目已有操作正在运行"@,
            AppErrorView::Updating => "系统更新期间暂停新操作"@,
            AppErrorView::Package(s) => "无法读取镜像版本: "@ + s,
            AppErrorView::Internal(s) => "内部错误: "@ + s,
            AppErrorView::Update(s) => "无法更新程序: "@ + s,
            AppErrorView::System(s) => "无法读取或清理系统资源: "@ + s,
        }
    }

    /// The HTTP status, the code and the message that the client gets. What went wrong inside
    /// stays inside.
    pub open spec fn response(self) -> ErrorResponseView {
        match self {
            AppErrorView::NotFound => error_response(404, "service_not_found"@, self.message()),
            AppErrorView::Invalid(_) => error_response(400, "invalid_request"@, self.message()),
            AppErrorView::VersionNotFound(_) => error_response(
                422,
                "version_not_found"@,
                self.message(),
            ),
            AppErrorView::Busy => error_response(409, "deployment_in_progress"@, self.message()),
            AppErrorView::Updating => error_response(
                409,
                "system_update_in_progress"@,
                self.message(),
            ),
            AppErrorView::Package(_) => error_response(502, "package_query_failed"@, self.message()),
            AppErrorView::Internal(_) => error_response(500, "internal_error"@, "内部服务错误"@),
            AppErrorView::Update(_) => error_response(502, "system_update_failed"@, self.message()),
            AppErrorView::System(_) => error_response(
                502,
                "system_resource_failed"@,
                self.message(),
            ),
        }
    }
}

pub open spec fn error_response(status: u16, code: Seq<char>, message: Seq<char>) -> ErrorResponseView {
    ErrorResponseView { status, code, message }
}

/// The answer to a failed request.
#[derive(Debug)]
pub struct ErrorResponse {
    pub status: u16,
    pub code: String,
    pub message: String,
}

pub struct ErrorResponseView {
    pub status: u16,
    pub code: Seq<char>,
    pub message: Seq<char>,
}

impl DeepView for ErrorResponse {
    type V = ErrorResponseView;

    open spec fn deep_view(&self) -> ErrorResponseView {
        ErrorResponseView {
            status: self.status,
            code: self.code.deep_view(),
            message: self.message.deep_view(),
        }
    }
}

impl Duplicate for ErrorResponse {
    fn duplicate(&self) -> (r: Self) {
        ErrorResponse {
            status: self.status,
            code: self.code.duplicate(),
            message: self.message.duplicate(),
        }
    }
}

impl Duplicate for AppError {
    fn duplicate(&self) -> (r: Self) {
        match self {
            AppError::NotFound => AppError::NotFound,
            AppError::Invalid(s) => AppError::Invalid(s.clone()),
            AppError::VersionNotFound(s) => AppError::VersionNotFound(s.clone()),
            AppError::Busy => AppError::Busy,
            AppError::Updating => AppError::Updating,
            AppError::Package(s) => AppError::Package(s.clone()),
            AppError::Internal(s) => AppError::Internal(s.clone()),
            AppError::Update(s) => AppError::Update(s.clone()),
            AppError::System(s) => AppError::System(s.clone()),
        }
    }
}

impl AppError {
    pub fn message(&self) -> (r: String)
        ensures
            r@ == self.deep_view().message(),
    {
        match self {
            AppError::NotFound => "未找到 Compose 项目或服务".to_owned(),
            AppError::Invalid(s) => text::joined2("请求格式无效: ", s.as_str()),
            AppError::VersionNotFound(s) => text::joined2("版本不存在: ", s.as_str()),
            AppError::Busy => "项目已有操作正在运行".to_owned(),
            AppError::Updating => "系统更新期间暂停新操作".to_owned(),
            AppError::Package(s) => text::joined2("无法读取镜像版本: ", s.as_str()),
            AppError::Internal(s) => text::joined2("内部错误: ", s.as_str()),
            AppError::Update(s) => text::joined2("无法更新程序: ", s.as_str()),
            AppError::System(s) => text::joined2("无法读取或清理系统资源: ", s.as_str()),
        }
    }

    pub fn into_response(&self) -> (r: ErrorResponse)
        ensures
            r.deep_view() == self.deep_view().response(),
    {
        let (status, code): (u16, &str) = match self {
            AppError::NotFound => (404, "service_not_found"),
            AppError::Invalid(_) => (400, "invalid_request"),
            AppError::VersionNotFound(_) => (422, "version_not_found"),
            AppError::Busy => (409, "deployment_in_progress"),
            AppError::Updating => (409, "system_update_in_progress"),
            AppError::Package(_) => (502, "package_query_failed"),
            AppError::Internal(_) => (500, "internal_error"),
            AppError::Update(_) => (502, "system_update_failed"),
            AppError::System(_) => (502, "system_resource_failed"),
        };
        let message = match self {
            AppError::Internal(_) => "内部服务错误".to_owned(),
            _ => self.message(),
        };
        ErrorResponse { status, code: code.to_owned(), message }
    }
}

/// What went wrong inside is never told to the client.
pub proof fn law_internal_errors_are_not_disclosed(a: Seq<char>, b: Seq<char>)
    ensures
        AppErrorView::Internal(a).response() == AppErrorView::Internal(b).response(),
{
}

} // verus!
