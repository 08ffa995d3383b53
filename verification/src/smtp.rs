//! The contents of the service's e-mails, and whether mail is switched off.

use vstd::prelude::*;
use crate::dtos::{CodeEmailContext, Notification};
use crate::text::{chars_of, string_from_chars};

verus! {

/// Mail is switched off when `DISABLE_SMTP` is `true` or `1`.
pub open spec fn smtp_disabled_by(value: Option<Seq<char>>) -> bool {
    match value {
        Some(v) => v == "true"@ || v == "1"@,
        None => false,
    }
}

fn same_chars(a: &Vec<char>, b: &Vec<char>) -> (r: bool)
    ensures
        r == (a@ == b@),
{
    if a.len() != b.len() {
        return false;
    }
    let mut i: usize = 0;
    while i < a.len()
        invariant
            a@.len() == b@.len(),
            i <= a@.len(),
            forall|k: int| 0 <= k < i ==> a@[k] == b@[k],
        decreases a@.len() - i,
    {
        if a[i] != b[i] {
            return false;
        }
        i = i + 1;
    }
    assert(a@ =~= b@);
    true
}

/// Whether mail is switched off, given the value of `DISABLE_SMTP` (`None`
/// when unset or not Unicode).
pub fn smtp_disabled(value: Option<&str>) -> (res: bool)
    ensures
        res == smtp_disabled_by(match value {
            Some(v) => Some(v@),
            None => None,
        }),
{
    match value {
        None => false,
        Some(v) => {
            let cs = chars_of(v);
            same_chars(&cs, &chars_of("true")) || same_chars(&cs, &chars_of("1"))
        },
    }
}

/// The concatenation of the texts of `parts`.
pub open spec fn joined(parts: Seq<Seq<char>>) -> Seq<char>
    decreases parts.len(),
{
    if parts.len() == 0 {
        Seq::empty()
    } else {
        joined(parts.drop_last()) + parts.last()
    }
}

/// The concatenation of `parts`.
pub fn concat(parts: &Vec<&str>) -> (res: String)
    ensures
        res@ == joined(parts@.map_values(|s: &str| s@)),
{
    let ghost texts = parts@.map_values(|s: &str| s@);
    let mut out: Vec<char> = Vec::new();
    for i in 0..parts.len()
        invariant
            texts == parts@.map_values(|s: &str| s@),
            out@ == joined(texts.take(i as int)),
    {
        let mut cs = chars_of(parts[i]);
        out.append(&mut cs);
        assert(texts.take(i + 1).drop_last() == texts.take(i as int));
    }
    assert(texts.take(parts@.len() as int) == texts);
    string_from_chars(&out)
}

/// The mail with a code for changing the password.
pub fn password_code_email(code: String, email: String) -> (res: CodeEmailContext)
    ensures
        res.code == code,
        res.email == email,
        res.subject@ == "Код для изменения пароля"@,
        res.text@ == "Вы изменяете пароль на вашем аккаунте. Необходимо ввести код для подтверждения изменения"@,
{
    CodeEmailContext {
        code,
        email,
        subject: String::from_str("Код для изменения пароля"),
        text: String::from_str(
            "Вы изменяете пароль на вашем аккаунте. Необходимо ввести код для подтверждения изменения",
        ),
    }
}

/// The mail with a code for changing the e-mail address.
pub fn email_change_code_email(code: String, email: String) -> (res: CodeEmailContext)
    ensures
        res.code == code,
        res.email == email,
        res.subject@ == "Код для изменения почты"@,
        res.text@ == "Вы изменяете почту на вашем аккаунте. Необходимо ввести код для изменения почты для потверждения изменения"@,
{
    CodeEmailContext {
        code,
        email,
        subject: String::from_str("Код для изменения почты"),
        text: String::from_str(
            "Вы изменяете почту на вашем аккаунте. Необходимо ввести код для изменения почты для потверждения изменения",
        ),
    }
}

/// The invitation to register, sent by `first_name last_name`; its link
/// carries the invitation id.
pub fn invitation(id: &str, first_name: &str, last_name: &str, email: String, client_url: &str) -> (res: Notification)
    ensures
        res.email == email,
        res.title@ == "Приглашение на регистрацию"@,
        res.link@ == client_url@ + "/auth/registration?code="@ + id@,
        res.message@ == "Вас пригласил(-а) зарегистрироваться на портал HITS "@ + first_name@ + " "@ + last_name@
            + " в качестве пользователя. Для регистрации на сервисе перейдите по данной ссылке и заполните все поля."@,
        res.button_name@ == "Зарегистрироваться"@,
{
    let mut link_parts: Vec<&str> = Vec::new();
    link_parts.push(client_url);
    link_parts.push("/auth/registration?code=");
    link_parts.push(id);
    let link = concat(&link_parts);
    proof {
        reveal_with_fuel(joined, 4);
        assert(link_parts@.map_values(|s: &str| s@) =~= seq![client_url@, "/auth/registration?code="@, id@]);
    }
    let mut msg_parts: Vec<&str> = Vec::new();
    msg_parts.push("Вас пригласил(-а) зарегистрироваться на портал HITS ");
    msg_parts.push(first_name);
    msg_parts.push(" ");
    msg_parts.push(last_name);
    msg_parts.push(" в качестве пользователя. Для регистрации на сервисе перейдите по данной ссылке и заполните все поля.");
    let message = concat(&msg_parts);
    proof {
        reveal_with_fuel(joined, 6);
        assert(msg_parts@.map_values(|s: &str| s@) =~= seq![
            "Вас пригласил(-а) зарегистрироваться на портал HITS "@,
            first_name@,
            " "@,
            last_name@,
            " в качестве пользователя. Для регистрации на сервисе перейдите по данной ссылке и заполните все поля."@,
        ]);
    }
    Notification {
        email,
        title: String::from_str("Приглашение на регистрацию"),
        message,
        link,
        button_name: String::from_str("Зарегистрироваться"),
    }
}

/// The invitation into team `team_name`, sent by `first_name last_name`;
/// its link leads to the team.
pub fn team_invitation(
    team_id: &str,
    team_name: &str,
    first_name: &str,
    last_name: &str,
    email: String,
    client_url: &str,
) -> (res: Notification)
    ensures
        res.email == email,
        res.title@ == "Приглашение в команду"@,
        res.link@ == client_url@ + "/team/list/"@ + team_id@,
        res.message@ == "Вас пригласил(-а) "@ + first_name@ + " "@ + last_name@ + " в команду \""@ + team_name@
            + "\" в качестве участника."@,
        res.button_name@ == "Перейти в команду"@,
{
    let mut link_parts: Vec<&str> = Vec::new();
    link_parts.push(client_url);
    link_parts.push("/team/list/");
    link_parts.push(team_id);
    let link = concat(&link_parts);
    proof {
        reveal_with_fuel(joined, 4);
        assert(link_parts@.map_values(|s: &str| s@) =~= seq![client_url@, "/team/list/"@, team_id@]);
    }
    let mut msg_parts: Vec<&str> = Vec::new();
    msg_parts.push("Вас пригласил(-а) ");
    msg_parts.push(first_name);
    msg_parts.push(" ");
    msg_parts.push(last_name);
    msg_parts.push(" в команду \"");
    msg_parts.push(team_name);
    msg_parts.push("\" в качестве участника.");
    let message = concat(&msg_parts);
    proof {
        reveal_with_fuel(joined, 8);
        assert(msg_parts@.map_values(|s: &str| s@) =~= seq![
            "Вас пригласил(-а) "@,
            first_name@,
            " "@,
            last_name@,
            " в команду \""@,
            team_name@,
            "\" в качестве участника."@,
        ]);
    }
    Notification {
        email,
        title: String::from_str("Приглашение в команду"),
        message,
        link,
        button_name: String::from_str("Перейти в команду"),
    }
}

} // verus!
