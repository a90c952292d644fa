use post_chain::ops::{initialize, signup_user, update_user};
use post_chain::records::BlogError;

#[test]
fn initialize_is_a_no_op() {
    assert_eq!(initialize(), Ok(()));
}

#[test]
fn signup_fills_the_profile() {
    let user = signup_user("ada".to_string(), "avatar.png".to_string(), 9);
    assert_eq!(user.name, "ada");
    assert_eq!(user.avatar, "avatar.png");
    assert_eq!(user.authority, 9);
}

#[test]
fn update_user_overwrites_display_fields() {
    let mut user = signup_user("ada".to_string(), "avatar.png".to_string(), 9);
    let r = update_user(&mut user, "lovelace".to_string(), "new.png".to_string(), 9);
    assert_eq!(r, Ok(()));
    assert_eq!(user.name, "lovelace");
    assert_eq!(user.avatar, "new.png");
    assert_eq!(user.authority, 9);
}

#[test]
fn update_user_rejects_foreign_identity() {
    let mut user = signup_user("ada".to_string(), "avatar.png".to_string(), 9);
    let r = update_user(&mut user, "eve".to_string(), "eve.png".to_string(), 8);
    assert_eq!(r, Err(BlogError::AuthorizationError));
    assert_eq!(user.name, "ada");
    assert_eq!(user.avatar, "avatar.png");
    assert_eq!(user.authority, 9);
}
