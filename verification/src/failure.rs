//! Why a connection ends.

use vstd::prelude::*;

verus! {

/// Why a connection was given up.
#[derive(Clone, Copy, Debug, PartialEq, Eq, Structural)]
pub enum Failure {
    /// The greeting does not start with protocol version 5.
    NotSocks5,
    /// The greeting offers no authentication method at all.
    NoMethods,
    /// None of the methods offered will do.
    NoAcceptableMethod,
    /// The authentication message does not start with version 1.
    NotPasswordAuthentication,
    /// The user name or the password is wrong.
    AuthenticationFailed,
    /// The request does not start with protocol version 5.
    NotSocks5Request,
    /// The reserved byte of the request is not 0.
    ReservedNotZero,
    /// The request has an address type other than IPv4, domain name and IPv6.
    UnsupportedAddressType,
    /// The domain name of the request is not UTF-8.
    InvalidDomain,
    /// The request has a command other than CONNECT, BIND and UDP ASSOCIATE.
    UnsupportedCommand,
    /// The domain name resolves to no address.
    NoAddressFound,
    /// The target is an IPv4 address, and only IPv6 targets are allowed.
    Ipv4Refused,
    /// The handshake took too long.
    HandshakeTimedOut,
    /// The request took too long to arrive.
    RequestTimedOut,
    /// The target did not answer in time.
    ConnectTimedOut,
    /// No peer connected to the listening port in time.
    BindTimedOut,
    /// Nothing was sent in either direction for too long.
    IdleTimedOut,
    /// Reading, writing or opening a socket failed.
    Io,
}

/// The kinds that failures fall into.
#[derive(Clone, Copy, Debug, PartialEq, Eq, Structural)]
pub enum FailureKind {
    InvalidData,
    PermissionDenied,
    NotFound,
    AddrNotAvailable,
    TimedOut,
    Other,
    /// That of the error with which reading, writing or opening a socket failed.
    OfTheError,
}

impl Failure {
    /// The kind that a failure falls into.
    pub open spec fn kind_of(self) -> FailureKind {
        match self {
            Failure::NotSocks5
            | Failure::NoMethods
            | Failure::NotPasswordAuthentication
            | Failure::NotSocks5Request
            | Failure::ReservedNotZero
            | Failure::UnsupportedAddressType
            | Failure::InvalidDomain
            | Failure::UnsupportedCommand => FailureKind::InvalidData,
            Failure::AuthenticationFailed => FailureKind::PermissionDenied,
            Failure::NoAddressFound => FailureKind::NotFound,
            Failure::Ipv4Refused => FailureKind::AddrNotAvailable,
            Failure::HandshakeTimedOut
            | Failure::RequestTimedOut
            | Failure::ConnectTimedOut
            | Failure::BindTimedOut
            | Failure::IdleTimedOut => FailureKind::TimedOut,
            Failure::NoAcceptableMethod => FailureKind::Other,
            Failure::Io => FailureKind::OfTheError,
        }
    }

    /// The words for a failure in the log.
    pub open spec fn words(self) -> Seq<char> {
        match self {
            Failure::NotSocks5 => "非 SOCKS5 协议"@,
            Failure::NoMethods => "无认证方法"@,
            Failure::NoAcceptableMethod => "没有可接受的认证方法"@,
            Failure::NotPasswordAuthentication => "非 RFC1929 认证"@,
            Failure::AuthenticationFailed => "认证失败"@,
            Failure::NotSocks5Request => "非 SOCKS5 请求"@,
            Failure::ReservedNotZero => "RSV 字段必须为 0"@,
            Failure::UnsupportedAddressType => "不支持的地址类型"@,
            Failure::InvalidDomain => "域名非法"@,
            Failure::UnsupportedCommand => "不支持的命令"@,
            Failure::NoAddressFound => "域名解析无结果"@,
            Failure::Ipv4Refused => "强制 IPv6 出口，拒绝 IPv4 目标"@,
            Failure::HandshakeTimedOut => "握手超时"@,
            Failure::RequestTimedOut => "请求读取超时"@,
            Failure::ConnectTimedOut => "出站连接超时"@,
            Failure::BindTimedOut => "BIND 等待对端连接超时"@,
            Failure::IdleTimedOut => "连接空闲超时"@,
            Failure::Io => "I/O 错误"@,
        }
    }

    /// The kind that this failure falls into.
    pub fn kind(&self) -> (r: FailureKind)
        ensures
            r == self.kind_of(),
    {
        match *self {
            Failure::NotSocks5
            | Failure::NoMethods
            | Failure::NotPasswordAuthentication
            | Failure::NotSocks5Request
            | Failure::ReservedNotZero
            | Failure::UnsupportedAddressType
            | Failure::InvalidDomain
            | Failure::UnsupportedCommand => FailureKind::InvalidData,
            Failure::AuthenticationFailed => FailureKind::PermissionDenied,
            Failure::NoAddressFound => FailureKind::NotFound,
            Failure::Ipv4Refused => FailureKind::AddrNotAvailable,
            Failure::HandshakeTimedOut
            | Failure::RequestTimedOut
            | Failure::ConnectTimedOut
            | Failure::BindTimedOut
            | Failure::IdleTimedOut => FailureKind::TimedOut,
            Failure::NoAcceptableMethod => FailureKind::Other,
            Failure::Io => FailureKind::OfTheError,
        }
    }

    /// The words for this failure in the log.
    pub fn message(&self) -> (r: &'static str)
        ensures
            r@ == self.words(),
    {
        match *self {
            Failure::NotSocks5 => "非 SOCKS5 协议",
            Failure::NoMethods => "无认证方法",
            Failure::NoAcceptableMethod => "没有可接受的认证方法",
            Failure::NotPasswordAuthentication => "非 RFC1929 认证",
            Failure::AuthenticationFailed => "认证失败",
            Failure::NotSocks5Request => "非 SOCKS5 请求",
            Failure::ReservedNotZero => "RSV 字段必须为 0",
            Failure::UnsupportedAddressType => "不支持的地址类型",
            Failure::InvalidDomain => "域名非法",
            Failure::UnsupportedCommand => "不支持的命令",
            Failure::NoAddressFound => "域名解析无结果",
            Failure::Ipv4Refused => "强制 IPv6 出口，拒绝 IPv4 目标",
            Failure::HandshakeTimedOut => "握手超时",
            Failure::RequestTimedOut => "请求读取超时",
            Failure::ConnectTimedOut => "出站连接超时",
            Failure::BindTimedOut => "BIND 等待对端连接超时",
            Failure::IdleTimedOut => "连接空闲超时",
            Failure::Io => "I/O 错误",
        }
    }
}

} // verus!
