pub mod health_check;
pub mod newsletters;
pub mod subscriptions;
pub mod subscriptions_confirm;
