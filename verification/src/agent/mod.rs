//! Hooks that run after each conversation turn.
pub mod auto_skill;
pub mod dialectic;
pub mod fact_course;
pub mod frontmatter;
pub mod naming;
pub mod reading_back;
pub mod rendering;
pub mod reply_format;
pub mod reply_parts;
pub mod response;
pub mod skill_course;
pub mod turn;
