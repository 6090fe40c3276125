//! Account-side logic of a secret manager: who is covered by the Cloud service, how that is
//! stored and reconciled, and how a command line signs in.

pub mod attempt_laws;
pub mod auth;
pub mod base32_codec;
pub mod callback;
pub mod callback_laws;
pub mod cloud_coverage;
pub mod cloud_coverage_reconciliation;
pub mod cloud_coverage_store;
pub mod collection_laws;
pub mod collection_rules;
pub mod coverage_facts;
pub mod coverage_invariant;
pub mod coverage_laws;
pub mod coverage_lookups;
pub mod coverage_spans;
pub mod coverage_tables;
pub mod error;
pub mod evaluation_laws;
pub mod key_strings;
pub mod keychain;
pub mod login;
pub mod login_laws;
pub mod lookup_laws;
pub mod observation_laws;
pub mod ordered;
pub mod publication_laws;
pub mod reconciliation_effects;
pub mod reconciliation_laws;
pub mod reconciliation_rules;
pub mod registration_laws;
pub mod rows;
pub mod store_laws;
pub mod text;
pub mod text_laws;
pub mod trial_laws;
pub mod urls;
pub mod view_laws;
pub mod write_laws;
