//! The client that a request comes from: a UUID in a header, or in the query
//! where a browser cannot set headers. The header wins.
use crate::app_error::AppError;
use crate::text::joined;
use vstd::prelude::*;
use vstd::string::*;

verus! {

/// A client's UUID, as a big-endian number.
#[derive(Clone, Copy, Debug, PartialEq, Eq, Structural)]
pub struct ClientId(pub u128);

/// What reading a UUID from text yields.
pub uninterp spec fn parsed_uuid(text: Seq<u8>) -> Option<u128>;

/// Parses a UUID with `uuid::Uuid::try_parse_ascii`, in any of the notations
/// it accepts. The result depends on the bytes alone.
#[verifier::external_body]
fn parse_uuid(text: &Vec<u8>) -> (uuid: Option<u128>)
    ensures
        uuid == parsed_uuid(text@),
{
    match uuid::Uuid::try_parse_ascii(text) {
        Ok(uuid) => Some(uuid.as_u128()),
        Err(_) => None,
    }
}

/// A byte that may stand in the text of a header.
pub open spec fn is_header_text(b: u8) -> bool {
    (32 <= b < 127) || b == 9
}

/// Some byte is none that may stand in a header's text.
pub open spec fn has_foreign_byte(bytes: Seq<u8>) -> bool {
    exists|i: int| 0 <= i < bytes.len() && !is_header_text(#[trigger] bytes[i])
}

/// What the header comes to: no client, a client, or why it is refused. The
/// header's bytes come with the UUID that they parse to, if any.
pub open spec fn client_in_header(
    header: Option<(Seq<u8>, Option<u128>)>,
) -> Result<Option<u128>, Seq<char>> {
    match header {
        None => Ok(None),
        Some((bytes, uuid)) => if has_foreign_byte(bytes) {
            Err("X-Client-Id is not valid ASCII"@)
        } else if uuid is None {
            Err("X-Client-Id is not a valid UUID"@)
        } else {
            Ok(uuid)
        },
    }
}

/// The client of a request, given what the header and the query come to. The
/// query is looked at only if there is no header.
pub open spec fn client_of_request(
    header: Result<Option<u128>, Seq<char>>,
    query: Result<Option<u128>, Seq<char>>,
) -> Result<u128, Seq<char>> {
    match header {
        Err(detail) => Err(detail),
        Ok(Some(client)) => Ok(client),
        Ok(None) => match query {
            Err(error) => Err("invalid client_id query: "@ + error),
            Ok(Some(client)) => Ok(client),
            Ok(None) => Err(
                "missing client id (send X-Client-Id header or ?client_id= query)"@,
            ),
        },
    }
}

fn is_text(bytes: &Vec<u8>) -> (r: bool)
    ensures
        r == !has_foreign_byte(bytes@),
{
    let mut i: usize = 0;
    while i < bytes.len()
        invariant
            i <= bytes@.len(),
            forall|j: int| 0 <= j < i ==> is_header_text(#[trigger] bytes@[j]),
        decreases bytes@.len() - i,
    {
        let b: u8 = bytes[i];
        if !((b >= 32 && b < 127) || b == 9) {
            assert(!is_header_text(bytes@[i as int]));
            return false;
        }
        i = i + 1;
    }
    true
}

pub open spec fn query_view(query: Result<Option<u128>, String>) -> Result<
    Option<u128>,
    Seq<char>,
> {
    match query {
        Ok(client) => Ok(client),
        Err(error) => Err(error@),
    }
}

impl ClientId {
    /// Decides on a header whose bytes have been parsed.
    pub fn check_header(header: Option<(&Vec<u8>, Option<u128>)>) -> (outcome: Result<
        Option<u128>,
        AppError,
    >)
        ensures
            match client_in_header(
                match header {
                    Some((bytes, uuid)) => Some((bytes@, uuid)),
                    None => None,
                },
            ) {
                Ok(client) => outcome == Ok::<Option<u128>, AppError>(client),
                Err(detail) => outcome matches Err(error) && error.code() == 400
                    && error.detail() == detail,
            },
    {
        match header {
            None => Ok(None),
            Some((bytes, uuid)) => {
                if !is_text(bytes) {
                    return Err(
                        AppError::BadRequest(String::from_str("X-Client-Id is not valid ASCII")),
                    );
                }
                match uuid {
                    Some(client) => Ok(Some(client)),
                    None => Err(
                        AppError::BadRequest(String::from_str("X-Client-Id is not a valid UUID")),
                    ),
                }
            },
        }
    }

    /// The client that the header names, if there is one.
    pub fn try_from_headers(header: Option<&Vec<u8>>) -> (outcome: Result<Option<u128>, AppError>)
        ensures
            match client_in_header(
                match header {
                    Some(bytes) => Some((bytes@, parsed_uuid(bytes@))),
                    None => None,
                },
            ) {
                Ok(client) => outcome == Ok::<Option<u128>, AppError>(client),
                Err(detail) => outcome matches Err(error) && error.code() == 400
                    && error.detail() == detail,
            },
    {
        match header {
            None => Self::check_header(None),
            Some(bytes) => Self::check_header(Some((bytes, parse_uuid(bytes)))),
        }
    }

    /// Chooses between header and query.
    pub fn select(
        header: Result<Option<u128>, AppError>,
        query: Result<Option<u128>, String>,
    ) -> (outcome: Result<ClientId, AppError>)
        ensures
            match header {
                Err(error) => outcome == Err::<ClientId, AppError>(error),
                Ok(client) => match client_of_request(Ok(client), query_view(query)) {
                    Ok(chosen) => outcome == Ok::<ClientId, AppError>(ClientId(chosen)),
                    Err(detail) => outcome matches Err(error) && error.code() == 400
                        && error.detail() == detail,
                },
            },
    {
        match header {
            Err(error) => Err(error),
            Ok(Some(client)) => Ok(ClientId(client)),
            Ok(None) => match query {
                Err(error) => Err(
                    AppError::BadRequest(joined("invalid client_id query: ", error.as_str())),
                ),
                Ok(Some(client)) => Ok(ClientId(client)),
                Ok(None) => Err(
                    AppError::BadRequest(
                        String::from_str(
                            "missing client id (send X-Client-Id header or ?client_id= query)",
                        ),
                    ),
                ),
            },
        }
    }

    /// The client of a request, from the bytes of the header and from what the
    /// query string says.
    pub fn from_request_parts(
        header: Option<&Vec<u8>>,
        query: Result<Option<u128>, String>,
    ) -> (outcome: Result<ClientId, AppError>)
        ensures
            match client_of_request(
                client_in_header(
                    match header {
                        Some(bytes) => Some((bytes@, parsed_uuid(bytes@))),
                        None => None,
                    },
                ),
                query_view(query),
            ) {
                Ok(client) => outcome == Ok::<ClientId, AppError>(ClientId(client)),
                Err(detail) => outcome matches Err(error) && error.code() == 400
                    && error.detail() == detail,
            },
    {
        Self::select(Self::try_from_headers(header), query)
    }
}

/// A valid header decides, whatever the query says.
pub proof fn law_header_wins(client: u128, query: Result<Option<u128>, Seq<char>>)
    ensures
        client_of_request(Ok(Some(client)), query) == Ok::<u128, Seq<char>>(client),
{
}

/// A header names a client if and only if its bytes parse to one and each of
/// them is a tab or a visible character or a space of ASCII; without a header
/// nothing is named, and any other header is refused.
pub proof fn law_header_names_a_client(bytes: Seq<u8>, uuid: Option<u128>)
    ensures
        client_in_header(None) == Ok::<Option<u128>, Seq<char>>(None),
        client_in_header(Some((bytes, uuid))) is Ok <==> uuid is Some && forall|i: int|
            0 <= i < bytes.len() ==> 0x20 <= #[trigger] bytes[i] <= 0x7e || bytes[i] == 0x09,
        client_in_header(Some((bytes, uuid))) matches Ok(client) ==> client == uuid,
{
    if has_foreign_byte(bytes) {
        let i = choose|i: int| 0 <= i < bytes.len() && !is_header_text(#[trigger] bytes[i]);
        assert(!(0x20 <= bytes[i] <= 0x7e || bytes[i] == 0x09));
    } else {
        assert forall|i: int| 0 <= i < bytes.len() implies 0x20 <= #[trigger] bytes[i] <= 0x7e
            || bytes[i] == 0x09 by {
            assert(is_header_text(bytes[i]));
        }
    }
}

/// A header that is refused ends the request, with its own reason, and the
/// query counts only without a header. A request that names no client is
/// refused.
pub proof fn law_query_counts_without_a_header(
    detail: Seq<char>,
    client: u128,
    query: Result<Option<u128>, Seq<char>>,
)
    ensures
        client_of_request(Err(detail), query) == Err::<u128, Seq<char>>(detail),
        client_of_request(Ok(None), Ok(Some(client))) == Ok::<u128, Seq<char>>(client),
        client_of_request(Ok(None), query) is Ok <==> query is Ok && query->Ok_0 is Some,
{
}

/// What the query comes to is taken as it is.
pub proof fn law_query_is_taken_as_it_is(query: Result<Option<u128>, String>)
    ensures
        query is Ok <==> query_view(query) is Ok,
        query matches Ok(client) ==> query_view(query) == Ok::<Option<u128>, Seq<char>>(client),
        query matches Err(error) ==> query_view(query) == Err::<Option<u128>, Seq<char>>(error@),
{
}

} // verus!
