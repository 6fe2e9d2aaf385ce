//! Personal-finance core: money, dates, card bills, statement matching,
//! cash-flow planning, review queues and release checks.

pub mod amount;
pub mod audit;
pub mod balance_laws;
pub mod balances;
pub mod bill_laws;
pub mod bill_text;
pub mod card_bills;
pub mod card_laws;
pub mod card_query;
pub mod card_text;
pub mod cards;
pub mod cash_laws;
pub mod cash_view;
pub mod cashflow;
pub mod categories;
pub mod cycle_laws;
pub mod dashboard;
pub mod date;
pub mod description;
pub mod draft;
pub mod draft_laws;
pub mod entries;
pub mod families;
pub mod family_laws;
pub mod health;
pub mod health_laws;
pub mod human;
pub mod insights;
pub mod keys;
pub mod list_laws;
pub mod listings;
pub mod maintenance;
pub mod message_laws;
pub mod metadata;
pub mod money;
pub mod monthly;
pub mod money_laws;
pub mod month_laws;
pub mod month_report;
pub mod ofx;
pub mod ofx_laws;
pub mod ofx_text;
pub mod order;
pub mod places;
pub mod pulse;
pub mod pulse_laws;
pub mod pulse_text;
pub mod ranking;
pub mod records;
pub mod review;
pub mod review_flow;
pub mod review_laws;
pub mod review_save;
pub mod review_session;
pub mod review_view;
pub mod scenario;
pub mod scenario_laws;
pub mod screen;
pub mod screen_laws;
pub mod seqs;
pub mod statement_laws;
pub mod status_text;
pub mod sums;
pub mod summary;
pub mod sync;
pub mod sync_laws;
pub mod sync_plan;
pub mod tally;
pub mod terminal;
pub mod text;
pub mod text_laws;
pub mod totals;
pub mod transactions;
pub mod update;
pub mod update_laws;
pub mod word_laws;
