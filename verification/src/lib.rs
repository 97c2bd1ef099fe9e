//! Infisical secret provider and the interpolation that it feeds.
//!
//! # What it is for
//!
//! A deployment should hold a *reference* to a secret, never a copy of it. A
//! reference names a project alias, an environment and a key:
//!
//! ```text
//! [[infisical://<project-alias>/<environment>/<SECRET_KEY>]]
//! ```
//!
//! The provider ([`provider`]) keeps the secrets of the configured scopes in a
//! cache, each under its token, and the interpolator ([`interpolate`]) puts them
//! into the texts of a resource. Values land among the *secrets* and not among
//! the variables, so that logs show only their names.
//!
//! # Failure behaviour
//!
//! A reference without a value is left in the output of a substitution
//! *verbatim*. Left alone, a failed lookup would deploy the literal reference as
//! a password. The interpolator therefore refuses a text with a provider
//! reference that it cannot resolve.
//!
//! The provider itself is deliberately *not* fatal to its caller: an outage of
//! Infisical is answered with the last known good secrets, from memory or from
//! disk, and where there are none, nothing is added. Only texts that refer to a
//! missing secret fail.
//!
//! # How the work is divided
//!
//! This library decides; it does not reach out. Requests, files and the process
//! environment are the business of its caller, who hands over what came back.
pub mod client;
pub mod client_laws;
pub mod clock;
pub mod config;
pub mod config_laws;
pub mod crypto;
pub mod interpolate;
pub mod interpolate_laws;
pub mod interpolate_resource;
pub mod number;
pub mod output_laws;
pub mod persist;
pub mod primitives;
pub mod provider;
pub mod provider_laws;
pub mod reference;
pub mod reference_laws;
pub mod replacers;
pub mod resource;
pub mod resource_laws;
pub mod settings_laws;
pub mod storage_laws;
pub mod string_map;
pub mod substitution;
pub mod text;
pub mod text_laws;
pub mod token;
pub mod url;
pub mod view_laws;
pub mod wording_laws;

pub use config::{enabled, InfisicalConfig, Scope};
pub use provider::extend_secrets;
pub use token::{token_for, TOKEN_PREFIX};
