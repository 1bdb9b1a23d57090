use cai::{Conversation, Prompt, Role};

#[test]
fn prompt_can_replace_by_function() {
    let prompt = Prompt::ask("What is the meaning of life?");
    let prompt = prompt.replace_messages(|q: String| q.to_uppercase());
    match prompt {
        Prompt::Ask(ask) => {
            assert_eq!(ask.question, "WHAT IS THE MEANING OF LIFE?");
            assert_eq!(ask.role_play, None);
        }
        _ => panic!("Unexpected prompt type"),
    }
}

#[test]
fn split_by_max_length_should_split_by_max_length_and_period() {
    let base_message = "Please translate next sentence: ";
    let big_message_src = "I was foo and bar.";
    let big_message = big_message_src.repeat(100);
    // This value is less than or equal to the total number of characters in base_message and big_message
    // and also less than or equal to twice the total number of characters.
    // By doing this, the concatenated value of base_message and big_message becomes a single prompt.
    let max_length = 60;

    let prompts = Prompt::split_by_max_length(base_message, &big_message, max_length);

    assert_eq!(prompts.len(), 100);
    prompts.iter().for_each(|prompt| match prompt {
        Prompt::Ask(ask) => {
            assert_eq!(ask.question, format!("{}{}", base_message, big_message_src));
            assert_eq!(ask.role_play, None);
        }
        _ => panic!("Unexpected prompt type"),
    });
}

#[test]
fn conversation() {
    let mut conversation = Conversation::new();
    conversation.add_role_play_message("You are a teacher.");
    conversation.add_user_message("What is the meaning of life?");
    conversation.add_ai_message("The meaning of life is 42.");

    let messages = conversation.messages();
    assert_eq!(messages.len(), 3);
    assert_eq!(messages[0].role, Role::RolePlay);
    assert_eq!(messages[0].content, "You are a teacher.");
    assert_eq!(messages[1].role, Role::User);
    assert_eq!(messages[1].content, "What is the meaning of life?");
    assert_eq!(messages[2].role, Role::AI);
    assert_eq!(messages[2].content, "The meaning of life is 42.");
}

#[test]
fn replace_messages_keeps_conversation_roles() {
    let mut conversation = Conversation::new();
    conversation.add_user_message("ab");
    conversation.add_ai_message("cd");
    let prompt = Prompt::with_conversation(conversation).replace_messages(|c: String| c.to_uppercase());
    match prompt {
        Prompt::Conversation(c) => {
            assert_eq!(c.messages.len(), 2);
            assert_eq!(c.messages[0].role, Role::User);
            assert_eq!(c.messages[0].content, "AB");
            assert_eq!(c.messages[1].role, Role::AI);
            assert_eq!(c.messages[1].content, "CD");
        }
        _ => panic!("Unexpected prompt type"),
    }
}

#[test]
fn ask_with_role_play_expands_to_two_messages() {
    let prompt = Prompt::ask_with_role_play("Who are you?", "You are a pirate.");
    let messages = prompt.messages();
    assert_eq!(messages.len(), 2);
    assert_eq!(messages[0].role, Role::RolePlay);
    assert_eq!(messages[0].content, "You are a pirate.");
    assert_eq!(messages[1].role, Role::User);
    assert_eq!(messages[1].content, "Who are you?");
}
