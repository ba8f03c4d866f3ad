//! AS and TGS ticket issuance.

pub mod answer;
pub mod answer_tgs;
pub mod as_req;
pub mod assemble;
pub mod assemble_tgs;
pub mod client_time;
pub mod dispatch;
pub mod fast_util;
pub mod header;
pub mod kdc_util;
pub mod mint;
pub mod reply;
pub mod sprinc;
pub mod tgs_policy;
pub mod tgs_req;
pub mod ticket_pac;
pub mod times;
