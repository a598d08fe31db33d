//! The controller's error type and the messages it reports in status conditions.
use vstd::prelude::*;

use crate::json::{clone_json, Json, JsonView};

verus! {

/// What the controller keeps of an error returned by the Kubernetes API client:
/// the HTTP status code when the API server answered with a status, and the
/// client error's text.
#[derive(Debug)]
pub struct KubeFailure {
    pub code: Option<u16>,
    pub message: String,
}

/// Why a value could not be written at a field path.
#[derive(Debug)]
pub enum AddToPathError {
    /// The root, or a member on the path, is not an object. Holds the unchanged root.
    ObjectRequired(Json),
}

#[derive(Debug)]
pub enum Error {
    KubeError(KubeFailure),
    ParseGroupVersionError(String),
    KubeconfigError(String),
    KubeconfigUtf8Error(String),
    MissingKeyError(String, String, String),
    SerializationError(String),
    JsonPathError(String),
    NameRequired,
    UIDRequired,
    NamespaceRequired,
    ResourceVersionRequired,
    AddToPathError(AddToPathError),
    JsonPathNoValues(String),
    JsonPathExactlyOneValue(String),
    MalformedInnerResource(String),
    MappingEmpty,
    ResourceNotFoundError(String, String, KubeFailure),
    UnauthorizedKubeconfigAccess(),
}

pub enum ErrorView {
    KubeError(Option<u16>, Seq<char>),
    ParseGroupVersionError(Seq<char>),
    KubeconfigError(Seq<char>),
    KubeconfigUtf8Error(Seq<char>),
    MissingKeyError(Seq<char>, Seq<char>, Seq<char>),
    SerializationError(Seq<char>),
    JsonPathError(Seq<char>),
    NameRequired,
    UIDRequired,
    NamespaceRequired,
    ResourceVersionRequired,
    ObjectRequired(JsonView),
    JsonPathNoValues(Seq<char>),
    JsonPathExactlyOneValue(Seq<char>),
    MalformedInnerResource(Seq<char>),
    MappingEmpty,
    ResourceNotFoundError(Seq<char>, Seq<char>, Option<u16>, Seq<char>),
    UnauthorizedKubeconfigAccess,
}

impl View for Error {
    type V = ErrorView;

    open spec fn view(&self) -> ErrorView {
        match self {
            Error::KubeError(k) => ErrorView::KubeError(k.code, k.message@),
            Error::ParseGroupVersionError(s) => ErrorView::ParseGroupVersionError(s@),
            Error::KubeconfigError(s) => ErrorView::KubeconfigError(s@),
            Error::KubeconfigUtf8Error(s) => ErrorView::KubeconfigUtf8Error(s@),
            Error::MissingKeyError(a, b, c) => ErrorView::MissingKeyError(a@, b@, c@),
            Error::SerializationError(s) => ErrorView::SerializationError(s@),
            Error::JsonPathError(s) => ErrorView::JsonPathError(s@),
            Error::NameRequired => ErrorView::NameRequired,
            Error::UIDRequired => ErrorView::UIDRequired,
            Error::NamespaceRequired => ErrorView::NamespaceRequired,
            Error::ResourceVersionRequired => ErrorView::ResourceVersionRequired,
            Error::AddToPathError(AddToPathError::ObjectRequired(j)) => ErrorView::ObjectRequired(j@),
            Error::JsonPathNoValues(s) => ErrorView::JsonPathNoValues(s@),
            Error::JsonPathExactlyOneValue(s) => ErrorView::JsonPathExactlyOneValue(s@),
            Error::MalformedInnerResource(s) => ErrorView::MalformedInnerResource(s@),
            Error::MappingEmpty => ErrorView::MappingEmpty,
            Error::ResourceNotFoundError(a, b, k) => ErrorView::ResourceNotFoundError(
                a@,
                b@,
                k.code,
                k.message@,
            ),
            Error::UnauthorizedKubeconfigAccess() => ErrorView::UnauthorizedKubeconfigAccess,
        }
    }
}

/// The text the error displays, as reported in the `ResourceSyncFailing` condition.
pub open spec fn error_message(e: ErrorView) -> Seq<char> {
    match e {
        ErrorView::KubeError(_, m) => "Kube Error: "@ + m,
        ErrorView::ParseGroupVersionError(m) => "Parsing apiVersion and Kind: "@ + m,
        ErrorView::KubeconfigError(_) => "Error parsing kubeconfig from secret"@,
        ErrorView::KubeconfigUtf8Error(_) => "error parsing kubeconfig from secret"@,
        // The format string names its first argument three times.
        ErrorView::MissingKeyError(key, _, _) => "referenced key '"@ + key + "' does not exist in secret '"@
            + key + "' in namespace '"@ + key + "'"@,
        ErrorView::SerializationError(m) => "SerializationError: "@ + m,
        ErrorView::JsonPathError(m) => "JsonPathError: "@ + m,
        ErrorView::NameRequired => "Name is required"@,
        ErrorView::UIDRequired => "UID is required"@,
        ErrorView::NamespaceRequired => "Namespace is required"@,
        ErrorView::ResourceVersionRequired => "Failed to acquire ResourceVersion"@,
        ErrorView::ObjectRequired(v) => "Value for field "@ + crate::json::json_text(v)
            + " must be an object"@,
        ErrorView::JsonPathNoValues(p) => "JSONPath '"@ + p + "' produced no values"@,
        ErrorView::JsonPathExactlyOneValue(p) => "JSONPath '"@ + p
            + "' didn't produce exactly one value"@,
        ErrorView::MalformedInnerResource(m) => "Expected k8s resource at subtree: "@ + m,
        ErrorView::MappingEmpty => "Mapping block must contain from_field_path, to_field_path or both, cannot be empty"@,
        ErrorView::ResourceNotFoundError(name, kind, _, m) => "Resource "@ + name + " of kind "@
            + kind + " not found: "@ + m,
        ErrorView::UnauthorizedKubeconfigAccess => "Referenced Kubeconfig Secret cannot be accessed due to namespace restrictions"@,
    }
}

impl KubeFailure {
    pub fn copy(&self) -> (r: KubeFailure)
        ensures
            r.code == self.code,
            r.message@ == self.message@,
    {
        KubeFailure { code: self.code, message: self.message.clone() }
    }
}

impl Error {
    /// The error's message, as the controller logs and reports it.
    pub fn message(&self) -> (r: String)
        ensures
            r@ == error_message(self@),
    {
        match self {
            Error::KubeError(k) => String::from_str("Kube Error: ").concat(k.message.as_str()),
            Error::ParseGroupVersionError(m) => String::from_str(
                "Parsing apiVersion and Kind: ",
            ).concat(m.as_str()),
            Error::KubeconfigError(_) => String::from_str("Error parsing kubeconfig from secret"),
            Error::KubeconfigUtf8Error(_) => String::from_str(
                "error parsing kubeconfig from secret",
            ),
            Error::MissingKeyError(key, _, _) => String::from_str("referenced key '").concat(
                key.as_str(),
            ).concat("' does not exist in secret '").concat(key.as_str()).concat(
                "' in namespace '",
            ).concat(key.as_str()).concat("'"),
            Error::SerializationError(m) => String::from_str("SerializationError: ").concat(
                m.as_str(),
            ),
            Error::JsonPathError(m) => String::from_str("JsonPathError: ").concat(m.as_str()),
            Error::NameRequired => String::from_str("Name is required"),
            Error::UIDRequired => String::from_str("UID is required"),
            Error::NamespaceRequired => String::from_str("Namespace is required"),
            Error::ResourceVersionRequired => String::from_str("Failed to acquire ResourceVersion"),
            Error::AddToPathError(AddToPathError::ObjectRequired(v)) => {
                let text = v.to_text();
                String::from_str("Value for field ").concat(text.as_str()).concat(
                    " must be an object",
                )
            },
            Error::JsonPathNoValues(p) => String::from_str("JSONPath '").concat(p.as_str()).concat(
                "' produced no values",
            ),
            Error::JsonPathExactlyOneValue(p) => String::from_str("JSONPath '").concat(
                p.as_str(),
            ).concat("' didn't produce exactly one value"),
            Error::MalformedInnerResource(m) => String::from_str(
                "Expected k8s resource at subtree: ",
            ).concat(m.as_str()),
            Error::MappingEmpty => String::from_str(
                "Mapping block must contain from_field_path, to_field_path or both, cannot be empty",
            ),
            Error::ResourceNotFoundError(name, kind, k) => String::from_str("Resource ").concat(
                name.as_str(),
            ).concat(" of kind ").concat(kind.as_str()).concat(" not found: ").concat(
                k.message.as_str(),
            ),
            Error::UnauthorizedKubeconfigAccess() => String::from_str(
                "Referenced Kubeconfig Secret cannot be accessed due to namespace restrictions",
            ),
        }
    }

    /// A copy of the error.
    pub fn copy(&self) -> (r: Error)
        ensures
            r@ == self@,
    {
        match self {
            Error::KubeError(k) => Error::KubeError(k.copy()),
            Error::ParseGroupVersionError(s) => Error::ParseGroupVersionError(s.clone()),
            Error::KubeconfigError(s) => Error::KubeconfigError(s.clone()),
            Error::KubeconfigUtf8Error(s) => Error::KubeconfigUtf8Error(s.clone()),
            Error::MissingKeyError(a, b, c) => Error::MissingKeyError(a.clone(), b.clone(), c.clone()),
            Error::SerializationError(s) => Error::SerializationError(s.clone()),
            Error::JsonPathError(s) => Error::JsonPathError(s.clone()),
            Error::NameRequired => Error::NameRequired,
            Error::UIDRequired => Error::UIDRequired,
            Error::NamespaceRequired => Error::NamespaceRequired,
            Error::ResourceVersionRequired => Error::ResourceVersionRequired,
            Error::AddToPathError(AddToPathError::ObjectRequired(j)) => Error::AddToPathError(
                AddToPathError::ObjectRequired(clone_json(j)),
            ),
            Error::JsonPathNoValues(s) => Error::JsonPathNoValues(s.clone()),
            Error::JsonPathExactlyOneValue(s) => Error::JsonPathExactlyOneValue(s.clone()),
            Error::MalformedInnerResource(s) => Error::MalformedInnerResource(s.clone()),
            Error::MappingEmpty => Error::MappingEmpty,
            Error::ResourceNotFoundError(a, b, k) => Error::ResourceNotFoundError(
                a.clone(),
                b.clone(),
                k.copy(),
            ),
            Error::UnauthorizedKubeconfigAccess() => Error::UnauthorizedKubeconfigAccess(),
        }
    }
}

} // verus!
