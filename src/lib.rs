//! Routing of HTTP requests to shell handlers: the route pattern language and
//! its parser, the matcher that binds request components to names, handler
//! argument expansion, the side-channel metadata protocol and the router.
use vstd::prelude::*;

pub mod text;
pub mod url;
pub mod route;
pub mod request;
pub mod matcher;
pub mod expand;
pub mod side_channel;
pub mod router;
pub mod service;
pub mod config;
pub mod laws;

verus! {

/// An I/O failure reported by the operating system; carried, never inspected.
#[verifier::external_type_specification]
#[verifier::external_body]
pub struct ExIoError(std::io::Error);

/// What can go wrong while parsing routes, or while running and reading a handler.
#[derive(Debug)]
pub enum Error {
    InvalidMethod(String),
    InvalidPathPart(String),
    InvalidRoute(String),
    InvalidHeader(String),
    InvalidStatus(String),
    RouteSpawn(std::io::Error),
    RouteWait(std::io::Error),
    RouteIoError(std::io::Error),
    RouteIoOpen,
}

/// The kind of an [`Error`] with the text it carries.
pub enum ErrorView {
    InvalidMethod(Seq<char>),
    InvalidPathPart(Seq<char>),
    InvalidRoute(Seq<char>),
    InvalidHeader(Seq<char>),
    InvalidStatus(Seq<char>),
    RouteSpawn,
    RouteWait,
    RouteIoError,
    RouteIoOpen,
}

impl View for Error {
    type V = ErrorView;

    open spec fn view(&self) -> ErrorView {
        match self {
            Error::InvalidMethod(s) => ErrorView::InvalidMethod(s@),
            Error::InvalidPathPart(s) => ErrorView::InvalidPathPart(s@),
            Error::InvalidRoute(s) => ErrorView::InvalidRoute(s@),
            Error::InvalidHeader(s) => ErrorView::InvalidHeader(s@),
            Error::InvalidStatus(s) => ErrorView::InvalidStatus(s@),
            Error::RouteSpawn(_) => ErrorView::RouteSpawn,
            Error::RouteWait(_) => ErrorView::RouteWait,
            Error::RouteIoError(_) => ErrorView::RouteIoError,
            Error::RouteIoOpen => ErrorView::RouteIoOpen,
        }
    }
}

} // verus!
