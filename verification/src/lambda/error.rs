//! What can go wrong in an evaluation.
use vstd::prelude::*;
use vstd::string::*;

use crate::lambda::expression::clone_path;
use crate::text;
use crate::text::{joined, signed_decimal, views};
use crate::valid::{CauseModel, ValidationError};
use crate::value::{Value, ValueModel};

verus! {

/// What can go wrong in an evaluation.
#[derive(Debug, PartialEq, Eq)]
pub enum EvaluationError {
    IOException(String),
    GRPCError {
        grpc_code: i32,
        grpc_description: String,
        grpc_status_message: String,
        grpc_status_details: Value,
    },
    APIValidationError(Vec<String>),
    ExprEvalError(String),
}

/// What an [`EvaluationError`] holds.
pub enum EvaluationErrorModel {
    IOException(Seq<char>),
    GRPCError {
        grpc_code: i32,
        grpc_description: Seq<char>,
        grpc_status_message: Seq<char>,
        grpc_status_details: ValueModel,
    },
    APIValidationError(Seq<Seq<char>>),
    ExprEvalError(Seq<char>),
}

impl View for EvaluationError {
    type V = EvaluationErrorModel;

    open spec fn view(&self) -> EvaluationErrorModel {
        match self {
            EvaluationError::IOException(s) => EvaluationErrorModel::IOException(s@),
            EvaluationError::GRPCError {
                grpc_code,
                grpc_description,
                grpc_status_message,
                grpc_status_details,
            } => EvaluationErrorModel::GRPCError {
                grpc_code: *grpc_code,
                grpc_description: grpc_description@,
                grpc_status_message: grpc_status_message@,
                grpc_status_details: grpc_status_details@,
            },
            EvaluationError::APIValidationError(messages) => EvaluationErrorModel::APIValidationError(
                views(messages@),
            ),
            EvaluationError::ExprEvalError(s) => EvaluationErrorModel::ExprEvalError(s@),
        }
    }
}

impl Clone for EvaluationError {
    fn clone(&self) -> (res: EvaluationError)
        ensures
            res@ == self@,
    {
        match self {
            EvaluationError::IOException(s) => EvaluationError::IOException(s.clone()),
            EvaluationError::GRPCError {
                grpc_code,
                grpc_description,
                grpc_status_message,
                grpc_status_details,
            } => EvaluationError::GRPCError {
                grpc_code: *grpc_code,
                grpc_description: grpc_description.clone(),
                grpc_status_message: grpc_status_message.clone(),
                grpc_status_details: grpc_status_details.clone(),
            },
            EvaluationError::APIValidationError(messages) => EvaluationError::APIValidationError(
                clone_path(messages),
            ),
            EvaluationError::ExprEvalError(s) => EvaluationError::ExprEvalError(s.clone()),
        }
    }
}

/// The text that the `Debug` of a string writes.
pub uninterp spec fn debugged(s: Seq<char>) -> Seq<char>;

/// Writes a string by the `Debug` of [`str`], in quotes and with its escapes. The text depends on
/// the string alone.
#[verifier::external_body]
fn debug_text(s: &str) -> (res: String)
    ensures
        res@ == debugged(s@),
{
    format!("{:?}", s)
}

/// Strings, each written by its `Debug`, as a list.
pub open spec fn debugged_list(strings: Seq<Seq<char>>) -> Seq<char> {
    "["@ + joined(strings.map_values(|s: Seq<char>| debugged(s)), ", "@) + "]"@
}

/// The message of an error.
pub open spec fn error_message(e: EvaluationErrorModel) -> Seq<char> {
    match e {
        EvaluationErrorModel::IOException(s) => "IOException: "@ + s,
        EvaluationErrorModel::GRPCError {
            grpc_code,
            grpc_description,
            grpc_status_message,
            grpc_status_details,
        } => "gRPC Error: status: "@ + signed_decimal(grpc_code as int) + ", description: `"@
            + grpc_description + "`, message: `"@ + grpc_status_message + "`"@,
        EvaluationErrorModel::APIValidationError(messages) => "APIValidationError: "@ + debugged_list(
            messages,
        ),
        EvaluationErrorModel::ExprEvalError(s) => "ExprEvalError: "@ + debugged(s),
    }
}

/// What an error adds to a GraphQL response besides its message.
pub open spec fn error_extensions(e: EvaluationErrorModel) -> Seq<(Seq<char>, ValueModel)> {
    match e {
        EvaluationErrorModel::GRPCError {
            grpc_code,
            grpc_description,
            grpc_status_message,
            grpc_status_details,
        } => seq![
            ("grpc_code"@, ValueModel::Number(signed_decimal(grpc_code as int))),
            ("grpc_description"@, ValueModel::String(grpc_description)),
            ("grpc_status_message"@, ValueModel::String(grpc_status_message)),
            ("grpc_status_details"@, grpc_status_details),
        ],
        _ => Seq::empty(),
    }
}

impl EvaluationError {
    /// The error for a failure: itself where it is an evaluation error, and else an I/O exception
    /// with its text.
    pub fn from_failure(failure: Result<EvaluationError, String>) -> (res: EvaluationError)
        ensures
            match failure {
                Ok(error) => res == error,
                Err(message) => res@ == EvaluationErrorModel::IOException(message@),
            },
    {
        match failure {
            Ok(error) => error,
            Err(message) => EvaluationError::IOException(message),
        }
    }

    /// The error for a value that is not valid: the messages of all causes.
    pub fn from_validation(error: &ValidationError) -> (res: EvaluationError)
        ensures
            res@ == EvaluationErrorModel::APIValidationError(
                error@.map_values(|c: CauseModel| c.message),
            ),
    {
        let mut messages: Vec<String> = Vec::new();
        let ghost all = error@.map_values(|c: CauseModel| c.message);
        for i in 0..error.causes.len()
            invariant
                all == error@.map_values(|c: CauseModel| c.message),
                views(messages@) == all.take(i as int),
        {
            let message = error.causes[i].message.clone();
            proof {
                assert(views(messages@.push(message)) =~= views(messages@).push(message@));
                assert(all.take(i + 1) =~= all.take(i as int).push(message@));
            }
            messages.push(message);
        }
        proof {
            assert(all.take(error.causes@.len() as int) =~= all);
        }
        EvaluationError::APIValidationError(messages)
    }

    /// The message of the error.
    pub fn message(&self) -> (res: String)
        ensures
            res@ == error_message(self@),
    {
        match self {
            EvaluationError::IOException(s) => {
                let mut res = "IOException: ".to_string();
                res.append(s.as_str());
                res
            },
            EvaluationError::GRPCError {
                grpc_code,
                grpc_description,
                grpc_status_message,
                grpc_status_details,
            } => {
                let mut res = "gRPC Error: status: ".to_string();
                res.append(text::i32_text(*grpc_code).as_str());
                res.append(", description: `");
                res.append(grpc_description.as_str());
                res.append("`, message: `");
                res.append(grpc_status_message.as_str());
                res.append("`");
                res
            },
            EvaluationError::APIValidationError(messages) => {
                let mut parts: Vec<String> = Vec::new();
                let ghost all = views(messages@).map_values(|s: Seq<char>| debugged(s));
                for i in 0..messages.len()
                    invariant
                        all == views(messages@).map_values(|s: Seq<char>| debugged(s)),
                        views(parts@) == all.take(i as int),
                {
                    let part = debug_text(messages[i].as_str());
                    proof {
                        assert(views(parts@.push(part)) =~= views(parts@).push(part@));
                        assert(all.take(i + 1) =~= all.take(i as int).push(part@));
                    }
                    parts.push(part);
                }
                proof {
                    assert(all.take(messages@.len() as int) =~= all);
                }
                let mut list = "[".to_string();
                list.append(text::join(&parts, ", ").as_str());
                list.append("]");
                let mut res = "APIValidationError: ".to_string();
                res.append(list.as_str());
                res
            },
            EvaluationError::ExprEvalError(s) => {
                let mut res = "ExprEvalError: ".to_string();
                res.append(debug_text(s.as_str()).as_str());
                res
            },
        }
    }

    /// What the error adds to a GraphQL response besides its message: the details of a gRPC error.
    pub fn extensions(&self) -> (res: Vec<(String, Value)>)
        ensures
            res@.map_values(|m: (String, Value)| (m.0@, m.1@)) == error_extensions(self@),
    {
        let mut res: Vec<(String, Value)> = Vec::new();
        if let EvaluationError::GRPCError {
            grpc_code,
            grpc_description,
            grpc_status_message,
            grpc_status_details,
        } = self {
            res.push(("grpc_code".to_string(), Value::Number(text::i32_text(*grpc_code))));
            res.push(("grpc_description".to_string(), Value::String(grpc_description.clone())));
            res.push(
                ("grpc_status_message".to_string(), Value::String(grpc_status_message.clone())),
            );
            res.push(("grpc_status_details".to_string(), grpc_status_details.clone()));
        }
        proof {
            assert(res@.map_values(|m: (String, Value)| (m.0@, m.1@)) =~= error_extensions(self@));
        }
        res
    }
}

/// The message of an error tells its sort and what it holds.
pub proof fn law_messages_tell_the_sort(
    text: Seq<char>,
    code: i32,
    description: Seq<char>,
    status: Seq<char>,
    details: ValueModel,
    messages: Seq<Seq<char>>,
)
    ensures
        error_message(EvaluationErrorModel::IOException(text)) == "IOException: "@ + text,
        error_message(
            (EvaluationErrorModel::GRPCError {
                grpc_code: code,
                grpc_description: description,
                grpc_status_message: status,
                grpc_status_details: details,
            }),
        ) == "gRPC Error: status: "@ + signed_decimal(code as int) + ", description: `"@ + description
            + "`, message: `"@ + status + "`"@,
        error_message(EvaluationErrorModel::APIValidationError(messages)) == "APIValidationError: "@ + (
        "["@ + joined(Seq::new(messages.len(), |i: int| debugged(messages[i])), ", "@) + "]"@),
        error_message(EvaluationErrorModel::ExprEvalError(text)) == "ExprEvalError: "@ + debugged(
            text,
        ),
{
    assert(messages.map_values(|s: Seq<char>| debugged(s)) =~= Seq::new(
        messages.len(),
        |i: int| debugged(messages[i]),
    ));
}

/// A gRPC error adds its code, its description, its message and its details to a response, each under
/// its name; any other error adds nothing.
pub proof fn law_grpc_errors_add_their_details(
    e: EvaluationErrorModel,
    code: i32,
    description: Seq<char>,
    status: Seq<char>,
    details: ValueModel,
)
    ensures
        !(e is GRPCError) ==> error_extensions(e).len() == 0,
        ({
            let added = error_extensions(
                EvaluationErrorModel::GRPCError {
                    grpc_code: code,
                    grpc_description: description,
                    grpc_status_message: status,
                    grpc_status_details: details,
                },
            );
            &&& added.len() == 4
            &&& added[0] == ("grpc_code"@, ValueModel::Number(signed_decimal(code as int)))
            &&& added[1] == ("grpc_description"@, ValueModel::String(description))
            &&& added[2] == ("grpc_status_message"@, ValueModel::String(status))
            &&& added[3] == ("grpc_status_details"@, details)
        }),
{
}

} // verus!
