pub mod batch;
pub mod capabilities;
pub mod cli;
pub mod clock;
pub mod commands;
pub mod config;
pub mod conformance;
pub mod conformance_checks;
pub mod conformance_claims;
pub mod conformance_manifest;
pub mod conformance_report;
pub mod conformance_sample;
pub mod connector;
pub mod descriptor;
pub mod document;
pub mod dtm;
pub mod inspect;
pub mod json;
pub mod keyed;
pub mod links;
pub mod loading;
pub mod management;
pub mod manifest;
pub mod message;
pub mod model;
pub mod policy;
pub mod report;
pub mod routing;
pub mod runtime;
pub mod samples;
pub mod schedule;
pub mod selection;
pub mod text;
pub mod ua_client;
pub mod ua_session;
pub mod ua_values;
