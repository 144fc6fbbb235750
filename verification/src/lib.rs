pub mod broker;
pub mod cleanup;
pub mod columns;
pub mod commits;
pub mod devices;
pub mod evolution;
pub mod identity;
pub mod imports;
pub mod initial;
pub mod invariants;
pub mod json;
pub mod lifecycle;
pub mod message;
pub mod migrate;
pub mod names;
pub mod paths;
pub mod pi;
pub mod pidtrack;
pub mod plugin;
pub mod podman;
pub mod progress;
pub mod receipts;
pub mod registry;
pub mod relay;
pub mod render;
pub mod repair;
pub mod replication;
pub mod rows;
pub mod sandbox;
pub mod schema;
pub mod search;
pub mod senders;
pub mod space;
pub mod store;
pub mod sync;
pub mod text;
pub mod times;
pub mod workers;
