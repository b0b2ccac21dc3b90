//! Rules of the `web-modules` frontend toolchain: the content security policy of a request and
//! its nonce, the set of packages to vendor, and the settings of the compiler.
pub mod compiler;
pub mod csp;
pub mod headers;
pub mod nonce;
pub mod roots;
pub mod text;
pub mod vendor;

pub use compiler::{CompilerConfig, Decorators, DevConfig, Processors, ResolvedCompiler, Toggle};
pub use csp::{CspNonceLayer, CspNonceService, DEFAULT_SENTINEL};
pub use nonce::CspNonce;
pub use vendor::PackageSpec;
