//! The library's error type and the messages it shows to users.

use vstd::prelude::*;

use crate::text::push_str;

verus! {

/// Everything that can go wrong in the library, with the detail each case carries.
#[derive(Debug, Clone, PartialEq, Eq)]
pub enum AppError {
    Database(String),
    Io(String),
    Json(String),
    /// A path that is not acceptable, or that could escape its root.
    InvalidPath(String),
    LibraryNotFound(String),
    JobNotFound(String),
    AssetNotFound(String),
    FfprobeUnavailable(String),
    Cancelled,
    Paused,
    Other(String),
}

impl AppError {
    /// The message shown for this error.
    pub open spec fn text(self) -> Seq<char> {
        match self {
            AppError::Database(d) => "数据库错误: "@ + d@,
            AppError::Io(d) => "IO 错误: "@ + d@,
            AppError::Json(d) => "序列化错误: "@ + d@,
            AppError::InvalidPath(d) => "路径不合法或存在目录穿越风险: "@ + d@,
            AppError::LibraryNotFound(d) => "素材库不存在: "@ + d@,
            AppError::JobNotFound(d) => "任务不存在: "@ + d@,
            AppError::AssetNotFound(d) => "素材不存在: "@ + d@,
            AppError::FfprobeUnavailable(d) => "ffprobe 不可用: "@ + d@,
            AppError::Cancelled => "任务已取消"@,
            AppError::Paused => "任务已暂停"@,
            AppError::Other(d) => d@,
        }
    }

    /// The message shown for this error.
    pub fn message(&self) -> (r: String)
        ensures
            r@ == self.text(),
    {
        let mut out = String::new();
        match self {
            AppError::Database(d) => {
                push_str(&mut out, "数据库错误: ");
                push_str(&mut out, d.as_str());
            },
            AppError::Io(d) => {
                push_str(&mut out, "IO 错误: ");
                push_str(&mut out, d.as_str());
            },
            AppError::Json(d) => {
                push_str(&mut out, "序列化错误: ");
                push_str(&mut out, d.as_str());
            },
            AppError::InvalidPath(d) => {
                push_str(&mut out, "路径不合法或存在目录穿越风险: ");
                push_str(&mut out, d.as_str());
            },
            AppError::LibraryNotFound(d) => {
                push_str(&mut out, "素材库不存在: ");
                push_str(&mut out, d.as_str());
            },
            AppError::JobNotFound(d) => {
                push_str(&mut out, "任务不存在: ");
                push_str(&mut out, d.as_str());
            },
            AppError::AssetNotFound(d) => {
                push_str(&mut out, "素材不存在: ");
                push_str(&mut out, d.as_str());
            },
            AppError::FfprobeUnavailable(d) => {
                push_str(&mut out, "ffprobe 不可用: ");
                push_str(&mut out, d.as_str());
            },
            AppError::Cancelled => {
                push_str(&mut out, "任务已取消");
            },
            AppError::Paused => {
                push_str(&mut out, "任务已暂停");
            },
            AppError::Other(d) => {
                push_str(&mut out, d.as_str());
            },
        }
        out
    }
}

} // verus!
