pub mod text;
pub mod object;
pub mod strmap;
pub mod properties;
pub mod auth;
pub mod authz;
pub mod sync;
pub mod hooks;
pub mod codec;
pub mod replication;
pub mod packfile;
pub mod dump_format;
pub mod dump;
pub mod dump_handlers;
pub mod sync_handlers;
pub mod proppatch;
pub mod webdav;
pub mod storage;
pub mod remote;
pub mod transfer;
pub mod checksum;
pub mod report;
pub mod load;
pub mod dump_stream;
pub mod dump_writer;
pub mod verify;
pub mod update;
pub mod svndiff;
pub mod activity;
pub mod reports;
pub mod propfind;
pub mod options;
pub mod revprops;
pub mod replay;
pub mod dump_law;
pub mod revtree;
pub mod admin;
pub mod xml;
