//! What can fail in the sled agent, and how it is answered.

use vstd::prelude::*;

use crate::http::{
    bad_request, client_error, for_bad_request, for_internal_error, for_not_found, for_status,
    for_unavail, internal_error, labelled, not_found, unavailable, HttpReply, HttpReplyView,
};
use crate::text::joined;

verus! {

/// What failed for an instance, with its text.
#[derive(Debug, PartialEq, Eq)]
pub enum InstanceError {
    /// Propolis answered with an error, or could not be asked.
    Propolis { status: Option<u16>, text: String },
    /// The instance cannot go to the state that was asked for.
    Transition { reply: HttpReply, text: String },
    Other { text: String },
}

/// What failed in managing instances, with its text.
#[derive(Debug, PartialEq, Eq)]
pub enum InstanceManagerError {
    Instance { error: InstanceError, text: String },
    Other { text: String },
}

impl InstanceManagerError {
    /// The text of the error.
    pub open spec fn text_of(self) -> Seq<char> {
        match self {
            InstanceManagerError::Instance { text, .. } => text@,
            InstanceManagerError::Other { text } => text@,
        }
    }
}

/// What failed for a zone bundle.
#[derive(Debug, Clone, Copy, PartialEq, Eq, Structural)]
pub enum BundleFailure {
    NoStorage,
    Unavailable,
    NoSuchZone,
    InvalidStorageLimit,
    InvalidCleanupPeriod,
    Other,
}

/// What failed for a zone bundle, with its text.
#[derive(Debug, PartialEq, Eq)]
pub struct BundleError {
    pub failure: BundleFailure,
    pub text: String,
}

/// What failed in the sled agent. Where another part failed, its text comes along.
#[derive(Debug, PartialEq, Eq)]
pub enum Error {
    BootDiskNotFound,
    Config { cause: String },
    BackingFs { cause: String },
    SwapDevice { cause: String },
    Etherstub { cause: String },
    EtherstubVnic { cause: String },
    Bootstrap { cause: String },
    DeleteAddress { cause: String },
    Underlay { cause: String },
    FirewallRequest,
    Services { cause: String },
    SledSubnet { cause: String },
    Instance { error: InstanceManagerError },
    Storage { cause: String },
    Download { cause: String },
    Opte { cause: String },
    Hardware { cause: String },
    ResolveError { cause: String },
    ZpoolList { cause: String },
    EarlyNetworkError { cause: String },
    Bootstore { cause: String },
    EarlyNetworkDeserialize { cause: String },
    ZoneBundle { bundle: BundleError },
    Metrics { cause: String },
}

impl Error {
    /// The text of the error.
    pub open spec fn text_of(self) -> Seq<char> {
        match self {
            Error::BootDiskNotFound => "Could not find boot disk"@,
            Error::Config { cause } => "Configuration error: "@ + cause@,
            Error::BackingFs { cause } => "Error setting up backing filesystems: "@ + cause@,
            Error::SwapDevice { cause } => "Error setting up swap device: "@ + cause@,
            Error::Etherstub { cause } => "Failed to acquire etherstub: "@ + cause@,
            Error::EtherstubVnic { cause } => "Failed to acquire etherstub VNIC: "@ + cause@,
            Error::Bootstrap { cause } => "Bootstrap error: "@ + cause@,
            Error::DeleteAddress { cause } => "Failed to remove Omicron address: "@ + cause@,
            Error::Underlay { cause } => "Failed to operate on underlay device: "@ + cause@,
            Error::FirewallRequest => "Failed to request firewall rules"@,
            Error::Services { cause } => cause@,
            Error::SledSubnet { cause } => "Failed to create Sled Subnet: "@ + cause@,
            Error::Instance { error } => "Error managing instances: "@ + error.text_of(),
            Error::Storage { cause } => "Error managing storage: "@ + cause@,
            Error::Download { cause } => "Error updating: "@ + cause@,
            Error::Opte { cause } => "Error managing guest networking: "@ + cause@,
            Error::Hardware { cause } => "Error monitoring hardware: "@ + cause@,
            Error::ResolveError { cause } => "Error resolving DNS name: "@ + cause@,
            Error::ZpoolList { cause } => cause@,
            Error::EarlyNetworkError { cause } => cause@,
            Error::Bootstore { cause } => "Bootstore Error: "@ + cause@,
            Error::EarlyNetworkDeserialize { cause } => {
                "Failed to deserialize early network config: "@ + cause@
            },
            Error::ZoneBundle { bundle } => "Zone bundle error: "@ + bundle.text@,
            Error::Metrics { cause } => "Metrics error: "@ + cause@,
        }
    }

    /// The text of the error.
    pub fn message(&self) -> (s: String)
        ensures
            s@ == self.text_of(),
    {
        match self {
            Error::BootDiskNotFound => "Could not find boot disk".to_owned(),
            Error::Config { cause } => joined("Configuration error: ", cause.as_str()),
            Error::BackingFs { cause } => {
                joined("Error setting up backing filesystems: ", cause.as_str())
            },
            Error::SwapDevice { cause } => joined("Error setting up swap device: ", cause.as_str()),
            Error::Etherstub { cause } => joined("Failed to acquire etherstub: ", cause.as_str()),
            Error::EtherstubVnic { cause } => {
                joined("Failed to acquire etherstub VNIC: ", cause.as_str())
            },
            Error::Bootstrap { cause } => joined("Bootstrap error: ", cause.as_str()),
            Error::DeleteAddress { cause } => {
                joined("Failed to remove Omicron address: ", cause.as_str())
            },
            Error::Underlay { cause } => {
                joined("Failed to operate on underlay device: ", cause.as_str())
            },
            Error::FirewallRequest => "Failed to request firewall rules".to_owned(),
            Error::Services { cause } => cause.as_str().to_owned(),
            Error::SledSubnet { cause } => joined("Failed to create Sled Subnet: ", cause.as_str()),
            Error::Instance { error } => match error {
                InstanceManagerError::Instance { text, .. } => {
                    joined("Error managing instances: ", text.as_str())
                },
                InstanceManagerError::Other { text } => {
                    joined("Error managing instances: ", text.as_str())
                },
            },
            Error::Storage { cause } => joined("Error managing storage: ", cause.as_str()),
            Error::Download { cause } => joined("Error updating: ", cause.as_str()),
            Error::Opte { cause } => joined("Error managing guest networking: ", cause.as_str()),
            Error::Hardware { cause } => joined("Error monitoring hardware: ", cause.as_str()),
            Error::ResolveError { cause } => joined("Error resolving DNS name: ", cause.as_str()),
            Error::ZpoolList { cause } => cause.as_str().to_owned(),
            Error::EarlyNetworkError { cause } => cause.as_str().to_owned(),
            Error::Bootstore { cause } => joined("Bootstore Error: ", cause.as_str()),
            Error::EarlyNetworkDeserialize { cause } => {
                joined("Failed to deserialize early network config: ", cause.as_str())
            },
            Error::ZoneBundle { bundle } => joined("Zone bundle error: ", bundle.text.as_str()),
            Error::Metrics { cause } => joined("Metrics error: ", cause.as_str()),
        }
    }

    /// The error can be answered: where Propolis refused a request, its status has a standard label.
    pub open spec fn answerable(self) -> bool {
        match self {
            Error::Instance {
                error: InstanceManagerError::Instance {
                    error: InstanceError::Propolis { status: Some(status), .. },
                    ..
                },
            } => 400 <= status < 500 ==> labelled(status),
            _ => true,
        }
    }

    /// How the error is answered over HTTP.
    pub open spec fn answer(self) -> HttpReplyView {
        match self {
            Error::Instance { error } => match error {
                InstanceManagerError::Instance { error, .. } => match error {
                    InstanceError::Propolis { status, text } => match status {
                        None => internal_error(text@),
                        Some(status) => if 400 <= status < 500 {
                            client_error(status)
                        } else if status == 503 {
                            unavailable(text@)
                        } else {
                            internal_error(text@)
                        },
                    },
                    InstanceError::Transition { reply, .. } => reply@,
                    InstanceError::Other { text } => internal_error(text@),
                },
                InstanceManagerError::Other { text } => internal_error(text@),
            },
            Error::ZoneBundle { bundle } => match bundle.failure {
                BundleFailure::NoStorage | BundleFailure::Unavailable => unavailable(bundle.text@),
                BundleFailure::NoSuchZone => not_found(bundle.text@),
                BundleFailure::InvalidStorageLimit | BundleFailure::InvalidCleanupPeriod => {
                    bad_request(bundle.text@)
                },
                BundleFailure::Other => internal_error(self.text_of()),
            },
            _ => internal_error(self.text_of()),
        }
    }

    /// How the error is answered over HTTP. What Propolis or a transition said of a request is handed
    /// on. What is wrong with a zone bundle decides its status. All else is an internal error.
    pub fn http_reply(&self) -> (reply: HttpReply)
        requires
            self.answerable(),
        ensures
            reply@ == self.answer(),
    {
        match self {
            Error::Instance { error } => match error {
                InstanceManagerError::Instance { error, .. } => match error {
                    InstanceError::Propolis { status, text } => match status {
                        None => for_internal_error(text.as_str().to_owned()),
                        Some(status) => if 400 <= *status && *status < 500 {
                            for_status(*status)
                        } else if *status == 503 {
                            for_unavail(text.as_str().to_owned())
                        } else {
                            for_internal_error(text.as_str().to_owned())
                        },
                    },
                    InstanceError::Transition { reply, .. } => reply.clone(),
                    InstanceError::Other { text } => for_internal_error(text.as_str().to_owned()),
                },
                InstanceManagerError::Other { text } => for_internal_error(
                    text.as_str().to_owned(),
                ),
            },
            Error::ZoneBundle { bundle } => match bundle.failure {
                BundleFailure::NoStorage | BundleFailure::Unavailable => for_unavail(
                    bundle.text.as_str().to_owned(),
                ),
                BundleFailure::NoSuchZone => for_not_found(bundle.text.as_str().to_owned()),
                BundleFailure::InvalidStorageLimit | BundleFailure::InvalidCleanupPeriod => {
                    for_bad_request(bundle.text.as_str().to_owned())
                },
                BundleFailure::Other => for_internal_error(self.message()),
            },
            _ => for_internal_error(self.message()),
        }
    }
}

/// A refused request is answered with the status that Propolis gave it.
pub proof fn client_errors_are_handed_on(error: Error, status: u16, said: String, text: String)
    requires
        400 <= status < 500,
        error == (Error::Instance {
            error: InstanceManagerError::Instance {
                error: InstanceError::Propolis { status: Some(status), text: said },
                text,
            },
        }),
    ensures
        error.answer().status_code == status,
{
}

/// Where a zone bundle is not at fault, and no instance, the client learns nothing of the cause.
pub proof fn internal_causes_are_not_told(error: Error)
    requires
        error !is Instance,
        error !is ZoneBundle,
    ensures
        error.answer().status_code == 500,
        error.answer().external_message == "Internal Server Error"@,
        error.answer().internal_message == error.text_of(),
{
}

} // verus!
