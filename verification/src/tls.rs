use vstd::prelude::*;

verus! {

/// Why a certificate file could not be loaded.
#[derive(Debug)]
pub enum LoadCertificateError {
    CannotOpenFile(std::io::Error),
    CannotExtractSertificates,
}

/// Why a private key file could not be loaded.
#[derive(Debug)]
pub enum LoadPrivateKeyError {
    CannotOpenFile(std::io::Error),
    RsaPrivateKeys,
    RsaKeyIsEmpty,
}

} // verus!
