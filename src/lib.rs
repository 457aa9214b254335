//! Access-control lists for a login service: the byte layout of an access
//! list, the pure list operations, the global owner-to-list map and the
//! dispatcher that authorizes and applies each instruction.
pub mod access_list;
pub mod codec;
pub mod error;
pub mod instruction;
pub mod processor;
pub mod state;

pub use access_list::{user_access_list_add_pk, user_access_list_remove_pk};
pub use codec::{
    pack_user_access_list, same_identity, unpack_user_access_list, Identity, UserAccessList,
};
pub use error::{AuthorizationError, DecodeError, HostIOError, ProcessError};
pub use instruction::ProgInstruction;
pub use state::{get_user_access_list_pk, user_matches_access_list, ProgramData};
pub use processor::{process_instruction, AccountSlot};
