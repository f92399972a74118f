//! Text layout and scheduling for a dictionary chat bot.
//!
//! * [`segment`] cuts a long definition into messages of bounded length, at
//!   the end of a paragraph, of a sentence or of a word.
//! * [`wrap`] wraps marked-up text into lines of a fixed width, in which
//!   markers take no room.
//! * [`markup`] reads the span markers of a line, [`rebalance`] closes at the
//!   end of each line the spans that it leaves open and opens them again on
//!   the next, and [`balance`] states what then holds of every line.
//! * [`svg`] turns emphasis tags into spans, and [`layout`] puts the three
//!   together for the picture of a word.
//! * [`scheduler`] computes the wait until a time of day and decides, event
//!   by event, what a daily job does next.
//! * [`encoding`], [`message`] and [`dispatch`] hold the start links, the
//!   texts that are sent and the choice of an answer.
//! * [`text`] and [`edit`] are the string tools that the rest is built on.
//!   Every position is an index into characters, never into bytes.

pub mod balance;
pub mod dispatch;
pub mod edit;
pub mod encoding;
pub mod layout;
pub mod markup;
pub mod message;
pub mod rebalance;
pub mod scheduler;
pub mod segment;
pub mod svg;
pub mod text;
pub mod wrap;
