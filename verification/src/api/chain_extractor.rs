//! The chain that a request names has to be the one that is served.
use crate::app_error::AppError;
use crate::domain::evm_network::{law_text_names_the_chain_with_that_id, EvmNetwork};
use crate::text::{decimal, joined, parsed_number, reads};
use vstd::prelude::*;
use vstd::string::*;

verus! {

/// A chain id from a request's path that names the served chain.
#[derive(Clone, Copy, Debug, PartialEq, Eq, Structural)]
pub struct ChainId(pub EvmNetwork);

/// The value of the first parameter with this name.
pub open spec fn first_value(params: Seq<(String, String)>, name: Seq<char>) -> Option<Seq<char>>
    decreases params.len(),
{
    if params.len() == 0 {
        None
    } else if params[0].0@ == name {
        Some(params[0].1@)
    } else {
        first_value(params.drop_first(), name)
    }
}

pub open spec fn not_served_message(chain: EvmNetwork, served: EvmNetwork) -> Seq<char> {
    "chain_id "@ + decimal(chain.id() as nat)
        + " is not served by this instance (configured: "@ + decimal(
        served.id() as nat,
    ) + ")"@
}

/// What the path parameters of a request come to: the chain, or the status and
/// text of the answer.
pub open spec fn chain_of_request(
    params: Option<Seq<(String, String)>>,
    served: EvmNetwork,
) -> Result<EvmNetwork, (u16, Seq<char>)> {
    match params {
        None => Err((400, "missing path parameters"@)),
        Some(params) => match first_value(params, "chain_id"@) {
            None => Err((400, "missing chain_id path parameter"@)),
            Some(raw) => match EvmNetwork::of_text(raw) {
                Err(_) => Err((400, "invalid chain_id: "@ + raw)),
                Ok(chain) => if chain == served {
                    Ok(chain)
                } else {
                    Err((404, not_served_message(chain, served)))
                },
            },
        },
    }
}

/// The answer to a request for another chain.
pub fn not_served(chain: EvmNetwork, served: EvmNetwork) -> (error: AppError)
    ensures
        error.code() == 404,
        error.detail() == not_served_message(chain, served),
{
    let mut text = joined("chain_id ", chain.to_text().as_str());
    text.append(" is not served by this instance (configured: ");
    text.append(served.to_text().as_str());
    text.append(")");
    AppError::NotFound(text)
}

fn find_value<'a>(params: &'a Vec<(String, String)>, name: &str) -> (value: Option<&'a String>)
    ensures
        value is Some <==> first_value(params@, name@) is Some,
        value matches Some(v) ==> first_value(params@, name@) == Some(v@),
{
    let mut i: usize = 0;
    assert(params@.skip(0) =~= params@);
    while i < params.len()
        invariant
            i <= params@.len(),
            first_value(params@, name@) == first_value(params@.skip(i as int), name@),
        decreases params@.len() - i,
    {
        assert(params@.skip(i as int).drop_first() =~= params@.skip(i + 1));
        if reads(&params[i].0, name) {
            return Some(&params[i].1);
        }
        i = i + 1;
    }
    None
}

impl ChainId {
    /// Takes the chain id from the path parameters, if there are any.
    pub fn from_request_parts(
        params: Option<&Vec<(String, String)>>,
        served: EvmNetwork,
    ) -> (outcome: Result<ChainId, AppError>)
        ensures
            match chain_of_request(
                match params {
                    Some(p) => Some(p@),
                    None => None,
                },
                served,
            ) {
                Ok(chain) => outcome == Ok::<ChainId, AppError>(ChainId(chain)),
                Err((code, detail)) => outcome matches Err(error) && error.code() == code
                    && error.detail() == detail,
            },
    {
        let params = match params {
            Some(params) => params,
            None => {
                return Err(AppError::BadRequest(String::from_str("missing path parameters")));
            },
        };
        let raw = match find_value(params, "chain_id") {
            Some(raw) => raw,
            None => {
                return Err(
                    AppError::BadRequest(String::from_str("missing chain_id path parameter")),
                );
            },
        };
        match EvmNetwork::from_str(raw.as_str()) {
            Err(_) => Err(AppError::BadRequest(joined("invalid chain_id: ", raw.as_str()))),
            Ok(chain) => if chain == served {
                Ok(ChainId(chain))
            } else {
                Err(not_served(chain, served))
            },
        }
    }
}

/// A parameter has the value it is first given: that at place `i`, if no
/// earlier one has the name.
pub proof fn law_first_parameter_with_the_name_counts(
    params: Seq<(String, String)>,
    name: Seq<char>,
    i: int,
)
    requires
        0 <= i <= params.len(),
        forall|j: int| 0 <= j < i ==> (#[trigger] params[j]).0@ != name,
    ensures
        i < params.len() && params[i].0@ == name ==> first_value(params, name) == Some(
            params[i].1@,
        ),
        i == params.len() ==> first_value(params, name) is None,
    decreases i,
{
    if i > 0 {
        let rest = params.drop_first();
        assert(params[0].0@ != name);
        assert forall|j: int| 0 <= j < i - 1 implies (#[trigger] rest[j]).0@ != name by {
            assert(rest[j] == params[j + 1]);
        }
        law_first_parameter_with_the_name_counts(rest, name, i - 1);
        if i < params.len() {
            assert(rest[i - 1] == params[i]);
        }
    }
}

/// A request is served if and only if its `chain_id` reads as the id of the
/// served chain. A chain that is supported but not served is not found; what
/// names no supported chain is a bad request.
pub proof fn law_only_the_served_chain_is_accepted(
    params: Seq<(String, String)>,
    served: EvmNetwork,
    other: EvmNetwork,
)
    requires
        other != served,
    ensures
        ({
            let raw = first_value(params, "chain_id"@);
            let answer = chain_of_request(Some(params), served);
            &&& chain_of_request(None, served) matches Err((code, _)) && code == 400
            &&& raw is None ==> (answer matches Err((code, _)) && code == 400)
            &&& raw matches Some(text) ==> (answer is Ok <==> parsed_number(
                text,
                u64::MAX as nat,
            ) == Some(served.id() as nat))
            &&& answer matches Ok(chain) ==> chain == served
            &&& raw matches Some(text) ==> (parsed_number(text, u64::MAX as nat) == Some(
                other.id() as nat,
            ) ==> (answer matches Err((code, _)) && code == 404))
            &&& answer matches Err((code, _)) ==> code == 400 || code == 404
            &&& answer matches Err((code, _)) ==> (code == 404 ==> raw is Some && EvmNetwork::of_text(
                raw->0,
            ) is Ok)
        }),
{
    if let Some(text) = first_value(params, "chain_id"@) {
        law_text_names_the_chain_with_that_id(text, served);
        law_text_names_the_chain_with_that_id(text, other);
    }
}

} // verus!
