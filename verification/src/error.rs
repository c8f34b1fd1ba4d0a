//! Error types. A message never holds a token.

use vstd::prelude::*;

use crate::text::join2;

verus! {

/// Why there is no configuration.
#[derive(Debug)]
pub enum ConfigError {
    /// There is no file at this path.
    NotFound(String),
    /// The file is no JSON; the text says why.
    InvalidJson(String),
    /// The file holds something else than an object.
    NotObject,
    /// The file cannot be read; the text says why.
    Io(String),
}

impl ConfigError {
    /// The message of the error.
    pub fn message(&self) -> (r: String)
        ensures
            r@ == match self {
                ConfigError::NotFound(path) => "配置文件不存在: "@ + path@,
                ConfigError::InvalidJson(why) => "配置文件不是合法 JSON: "@ + why@,
                ConfigError::NotObject => "配置根节点必须是对象"@,
                ConfigError::Io(why) => "IO 错误: "@ + why@,
            },
    {
        match self {
            ConfigError::NotFound(path) => join2("配置文件不存在: ", path.as_str()),
            ConfigError::InvalidJson(why) => join2("配置文件不是合法 JSON: ", why.as_str()),
            ConfigError::NotObject => "配置根节点必须是对象".to_owned(),
            ConfigError::Io(why) => join2("IO 错误: ", why.as_str()),
        }
    }
}

/// Why a call of the forward API failed.
#[derive(Debug)]
pub struct ForwardApiError {
    pub message: String,
    pub status: Option<u16>,
    pub body: String,
}

/// What a [`ForwardApiError`] holds.
pub struct ForwardApiErrorV {
    pub message: Seq<char>,
    pub status: Option<u16>,
    pub body: Seq<char>,
}

impl View for ForwardApiError {
    type V = ForwardApiErrorV;

    open spec fn view(&self) -> ForwardApiErrorV {
        ForwardApiErrorV { message: self.message@, status: self.status, body: self.body@ }
    }
}

impl ForwardApiError {
    /// An error with these parts.
    pub fn new(message: String, status: Option<u16>, body: String) -> (r: Self)
        ensures
            r.message == message,
            r.status == status,
            r.body == body,
    {
        ForwardApiError { message, status, body }
    }
}

} // verus!
