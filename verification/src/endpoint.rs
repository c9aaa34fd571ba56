//! Where each exchange streams a pair's book, and what must be sent to it
//! to subscribe.

use url::{ParseError, Url};
use vstd::prelude::*;
use vstd::string::*;
use crate::book::ExchangeId;
use crate::pairs::TradingPair;

verus! {

/// The url crate's `Url`, a parsed URL.
#[verifier::external_type_specification]
#[verifier::external_body]
pub struct ExUrl(url::Url);

/// The url crate's `ParseError`, the reason why a text is no URL.
#[verifier::external_type_specification]
#[verifier::external_body]
pub struct ExParseError(url::ParseError);

/// Whether `Url::parse` of the url crate takes `address` as an absolute
/// URL.
pub uninterp spec fn is_url(address: Seq<char>) -> bool;

/// `Url::parse` of the url crate. The parser reads nothing but its
/// argument, so the same text is always taken or always refused.
#[verifier::external_body]
fn parse_address(address: &str) -> (parsed: Result<Url, ParseError>)
    ensures
        parsed is Ok <==> is_url(address@),
{
    Url::parse(address)
}

/// Why an endpoint could not be made.
#[derive(Clone, Copy, Debug, PartialEq, Eq, Structural, Hash)]
pub enum EndpointError {
    /// The address is no URL.
    InvalidAddress,
}

/// The address at which `exchange` streams the book of `pair`. Binance has
/// one stream for each pair; Bitstamp has one address for all.
pub open spec fn address_of(exchange: ExchangeId, pair: Seq<char>) -> Seq<char> {
    match exchange {
        ExchangeId::Binance => "wss://stream.binance.com:9443/ws/"@ + pair + "@depth20@100ms"@,
        ExchangeId::Bitstamp => "wss://ws.bitstamp.net"@,
    }
}

/// What must be sent to `exchange` once connected, to be sent the book of
/// `pair`: a subscription to the pair's channel for Bitstamp, nothing for
/// Binance.
pub open spec fn subscription_of(exchange: ExchangeId, pair: Seq<char>) -> Option<Seq<char>> {
    match exchange {
        ExchangeId::Binance => None,
        ExchangeId::Bitstamp => Some(
            "{\n            \"event\": \"bts:subscribe\",\n            \"data\": {\"channel\": \"order_book_"@
                + pair + "\"}\n        }"@,
        ),
    }
}

/// The text of an optional string.
pub open spec fn text_in(text: Option<String>) -> Option<Seq<char>> {
    match text {
        Some(t) => Some(t@),
        None => None,
    }
}

/// The address at which `exchange` streams the book of `pair`.
pub fn address(exchange: ExchangeId, pair: &TradingPair) -> (text: String)
    ensures
        text@ == address_of(exchange, pair@),
{
    match exchange {
        ExchangeId::Binance => {
            let mut text = String::from_str("wss://stream.binance.com:9443/ws/");
            text.append(pair.symbol());
            text.append("@depth20@100ms");
            text
        },
        ExchangeId::Bitstamp => String::from_str("wss://ws.bitstamp.net"),
    }
}

/// What must be sent to `exchange` once connected, if anything.
pub fn subscription(exchange: ExchangeId, pair: &TradingPair) -> (message: Option<String>)
    ensures
        text_in(message) == subscription_of(exchange, pair@),
{
    match exchange {
        ExchangeId::Binance => None,
        ExchangeId::Bitstamp => {
            let mut text = String::from_str(
                "{\n            \"event\": \"bts:subscribe\",\n            \"data\": {\"channel\": \"order_book_",
            );
            text.append(pair.symbol());
            text.append("\"}\n        }");
            Some(text)
        },
    }
}

/// The endpoint that a parsed address gives: the URL itself, or
/// `InvalidAddress` whatever the parser's reason.
pub fn endpoint_from(parsed: Result<Url, ParseError>) -> (endpoint: Result<Url, EndpointError>)
    ensures
        parsed matches Ok(url) ==> endpoint == Ok::<Url, EndpointError>(url),
        parsed is Err ==> endpoint == Err::<Url, EndpointError>(EndpointError::InvalidAddress),
{
    match parsed {
        Ok(url) => Ok(url),
        Err(_) => Err(EndpointError::InvalidAddress),
    }
}

/// The endpoint of `exchange` for `pair`: its address as a URL.
pub fn endpoint(exchange: ExchangeId, pair: &TradingPair) -> (endpoint: Result<Url, EndpointError>)
    ensures
        endpoint is Ok <==> is_url(address_of(exchange, pair@)),
        endpoint is Err ==> endpoint == Err::<Url, EndpointError>(EndpointError::InvalidAddress),
{
    let text = address(exchange, pair);
    endpoint_from(parse_address(text.as_str()))
}

} // verus!
