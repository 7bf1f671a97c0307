//! EtherNet/IP adapter-side protocol handling over UDP, and the request
//! building and data decoding for a Balluff BNI008M I/O module.
pub mod wire;
pub mod forward_close;
pub mod forward_open;
pub mod explicit;
pub mod assembly;
pub mod assembly_laws;
pub mod server;
pub mod balluff;
