use stream_ledger::errors::Error;
use stream_ledger::streaming::SalaryStreamingContract;

const EMPLOYER: u64 = 11;
const EMPLOYEE: u64 = 22;
const STRANGER: u64 = 33;

#[test]
fn test_create_stream() {
    let mut c = SalaryStreamingContract::new();

    let total_amount = 1000i128;
    let duration = 100u64;

    let stream_id = c.create_stream(EMPLOYER, EMPLOYEE, total_amount, duration, 0);

    assert_eq!(stream_id, 1);

    let stream = c.get_stream(stream_id).unwrap();
    assert_eq!(stream.employer, EMPLOYER);
    assert_eq!(stream.employee, EMPLOYEE);
    assert_eq!(stream.total_amount, total_amount);
    assert_eq!(stream.duration_seconds, duration);
    assert_eq!(stream.rate_per_second, 10i128); // 1000 / 100
    assert!(stream.is_active);
    assert!(!stream.is_paused);
}

#[test]
fn test_withdraw() {
    let mut c = SalaryStreamingContract::new();

    let total_amount = 1000i128;
    let duration = 100u64;

    let stream_id = c.create_stream(EMPLOYER, EMPLOYEE, total_amount, duration, 0);

    // 10 seconds into the stream
    let available = c.calculate_available(stream_id, 10).unwrap();
    assert_eq!(available, 100i128); // 10 seconds * 10 per second

    let withdrawn = c.withdraw(EMPLOYEE, stream_id, 50i128, 10).unwrap();
    assert_eq!(withdrawn, 50i128);

    let stream = c.get_stream(stream_id).unwrap();
    assert_eq!(stream.withdrawn_amount, 50i128);
    assert_eq!(c.calculate_available(stream_id, 10).unwrap(), 50i128);
}

#[test]
fn test_pause_resume() {
    let mut c = SalaryStreamingContract::new();

    let stream_id = c.create_stream(EMPLOYER, EMPLOYEE, 1000i128, 100u64, 0);

    c.pause_stream(EMPLOYER, stream_id).unwrap();
    let stream = c.get_stream(stream_id).unwrap();
    assert!(stream.is_paused);

    c.resume_stream(EMPLOYER, stream_id).unwrap();
    let stream = c.get_stream(stream_id).unwrap();
    assert!(!stream.is_paused);
}

#[test]
fn test_pause_blocks_withdrawal_not_accrual() {
    let mut c = SalaryStreamingContract::new();
    let id = c.create_stream(EMPLOYER, EMPLOYEE, 1000, 100, 0);

    c.pause_stream(EMPLOYER, id).unwrap();
    // While paused nothing is available, however much time passes.
    assert_eq!(c.calculate_available(id, 50).unwrap(), 0);
    assert_eq!(c.withdraw(EMPLOYEE, id, 1, 50), Err(Error::BusinessRuleViolation));

    // Accrual ran from the original start time through the pause.
    c.resume_stream(EMPLOYER, id).unwrap();
    assert_eq!(c.calculate_available(id, 50).unwrap(), 500);
}

#[test]
fn test_stream_cap_at_completion() {
    let mut c = SalaryStreamingContract::new();
    let id = c.create_stream(EMPLOYER, EMPLOYEE, 1000, 100, 0);
    c.withdraw(EMPLOYEE, id, 300, 40).unwrap();

    // At and far past the full duration, available + withdrawn == total.
    assert_eq!(c.calculate_available(id, 100).unwrap(), 700);
    assert_eq!(c.calculate_available(id, 100_000).unwrap(), 700);

    c.withdraw(EMPLOYEE, id, 700, 200).unwrap();
    assert_eq!(c.calculate_available(id, 100_000).unwrap(), 0);
    let stream = c.get_stream(id).unwrap();
    assert_eq!(stream.withdrawn_amount, stream.total_amount);
}

#[test]
fn test_truncating_rate_shortfall() {
    let mut c = SalaryStreamingContract::new();
    // 1000 over 300 seconds: the rate truncates to 3 per second, so only 900
    // has vested when the duration ends; the accrual clock keeps running at
    // the truncated rate until the cap at the full total.
    let id = c.create_stream(EMPLOYER, EMPLOYEE, 1000, 300, 0);
    let stream = c.get_stream(id).unwrap();
    assert_eq!(stream.rate_per_second, 3);
    assert_eq!(c.calculate_available(id, 300).unwrap(), 900);
    assert_eq!(c.calculate_available(id, 333).unwrap(), 999);
    assert_eq!(c.calculate_available(id, 1_000_000).unwrap(), 1000);
}

#[test]
fn test_withdraw_errors() {
    let mut c = SalaryStreamingContract::new();
    let id = c.create_stream(EMPLOYER, EMPLOYEE, 1000, 100, 0);

    assert_eq!(c.withdraw(EMPLOYEE, 99, 10, 10), Err(Error::NotFound));
    assert_eq!(c.withdraw(STRANGER, id, 10, 10), Err(Error::Unauthorized));
    assert_eq!(c.withdraw(EMPLOYEE, id, -5, 10), Err(Error::InvalidArgument));
    assert_eq!(c.withdraw(EMPLOYEE, id, 101, 10), Err(Error::BusinessRuleViolation));
    // A failed withdrawal changes nothing.
    assert_eq!(c.get_stream(id).unwrap().withdrawn_amount, 0);

    assert_eq!(c.calculate_available(99, 10), Err(Error::NotFound));
    assert_eq!(c.pause_stream(STRANGER, id), Err(Error::Unauthorized));
    assert_eq!(c.resume_stream(STRANGER, id), Err(Error::Unauthorized));
    assert_eq!(c.end_stream(STRANGER, id), Err(Error::Unauthorized));
    assert_eq!(c.pause_stream(EMPLOYER, 99), Err(Error::NotFound));
}

#[test]
fn test_end_stream_is_permanent() {
    let mut c = SalaryStreamingContract::new();
    let id = c.create_stream(EMPLOYER, EMPLOYEE, 1000, 100, 0);
    c.end_stream(EMPLOYER, id).unwrap();
    let stream = c.get_stream(id).unwrap();
    assert!(!stream.is_active);
    assert_eq!(c.calculate_available(id, 50).unwrap(), 0);
    assert_eq!(c.withdraw(EMPLOYEE, id, 1, 50), Err(Error::BusinessRuleViolation));
}

#[test]
fn test_stream_queries() {
    let mut c = SalaryStreamingContract::new();
    let a = c.create_stream(EMPLOYER, EMPLOYEE, 1000, 100, 0);
    let b = c.create_stream(EMPLOYER, STRANGER, 500, 50, 1);
    let d = c.create_stream(44, EMPLOYEE, 200, 20, 2);

    assert_eq!(c.get_employer_streams(EMPLOYER), vec![a, b]);
    assert_eq!(c.get_employer_streams(44), vec![d]);
    assert_eq!(c.get_employer_streams(555), Vec::<u32>::new());

    let mine = c.get_employee_streams(EMPLOYEE);
    assert_eq!(mine.len(), 2);
    assert_eq!(mine[0].id, a);
    assert_eq!(mine[1].id, d);

    let all = c.get_all_streams();
    assert_eq!(all.len(), 3);
    assert_eq!(c.get_all_stream_ids(), vec![1, 2, 3]);
    assert_eq!(c.get_stream(99), Err(Error::NotFound));
}

#[test]
fn test_register_employee() {
    let mut c = SalaryStreamingContract::new();

    let name = "John Doe".to_string();
    let email = "john@company.com".to_string();
    let phone = "+90 555 123 4567".to_string();
    let position = "Senior Developer".to_string();
    let department = "Engineering".to_string();
    let start_date = 1640995200u64; // January 1, 2022

    c.register_employee(
        EMPLOYER,
        EMPLOYEE,
        name.clone(),
        email.clone(),
        phone.clone(),
        position.clone(),
        department.clone(),
        start_date,
        7,
    );

    let employee_info = c.get_employee_info(EMPLOYEE).unwrap();
    assert_eq!(employee_info.address, EMPLOYEE);
    assert_eq!(employee_info.name, name);
    assert_eq!(employee_info.email, email);
    assert_eq!(employee_info.phone, phone);
    assert_eq!(employee_info.position, position);
    assert_eq!(employee_info.department, department);
    assert_eq!(employee_info.start_date, start_date);
    assert_eq!(employee_info.employer, EMPLOYER);
    assert!(employee_info.is_active);
    assert!(employee_info.end_date.is_none());
}

#[test]
fn test_update_employee_info() {
    let mut c = SalaryStreamingContract::new();

    let initial_name = "John Doe".to_string();
    let initial_email = "john@company.com".to_string();
    let initial_phone = "+90 555 123 4567".to_string();
    let initial_position = "Junior Developer".to_string();
    let initial_department = "Engineering".to_string();
    let start_date = 1640995200u64;

    let updated_name = "John Smith".to_string();
    let updated_email = "johnsmith@company.com".to_string();
    let updated_phone = "+90 555 987 6543".to_string();
    let updated_position = "Senior Developer".to_string();
    let updated_department = "Engineering".to_string();

    c.register_employee(
        EMPLOYER,
        EMPLOYEE,
        initial_name,
        initial_email,
        initial_phone,
        initial_position,
        initial_department,
        start_date,
        0,
    );

    c.update_employee_info(
        EMPLOYER,
        EMPLOYEE,
        updated_name.clone(),
        updated_email.clone(),
        updated_phone.clone(),
        updated_position.clone(),
        updated_department.clone(),
    )
    .unwrap();

    let employee_info = c.get_employee_info(EMPLOYEE).unwrap();
    assert_eq!(employee_info.name, updated_name);
    assert_eq!(employee_info.email, updated_email);
    assert_eq!(employee_info.phone, updated_phone);
    assert_eq!(employee_info.position, updated_position);
    assert_eq!(employee_info.department, updated_department);
}

#[test]
fn test_get_employer_employees() {
    let mut c = SalaryStreamingContract::new();

    let employee1: u64 = 201;
    let employee2: u64 = 202;

    let name1 = "Alice".to_string();
    let email1 = "alice@company.com".to_string();
    let phone1 = "+90 555 111 1111".to_string();
    let position1 = "Frontend Developer".to_string();
    let department1 = "Engineering".to_string();
    let start_date1 = 1640995200u64;

    let name2 = "Bob".to_string();
    let email2 = "bob@company.com".to_string();
    let phone2 = "+90 555 222 2222".to_string();
    let position2 = "Backend Developer".to_string();
    let department2 = "Engineering".to_string();
    let start_date2 = 1641081600u64;

    c.register_employee(
        EMPLOYER,
        employee1,
        name1.clone(),
        email1.clone(),
        phone1,
        position1.clone(),
        department1.clone(),
        start_date1,
        0,
    );
    c.register_employee(
        EMPLOYER,
        employee2,
        name2.clone(),
        email2.clone(),
        phone2,
        position2.clone(),
        department2.clone(),
        start_date2,
        1,
    );

    let employees = c.get_employer_employees(EMPLOYER);
    assert_eq!(employees.len(), 2);

    let emp1 = &employees[0];
    let emp2 = &employees[1];

    assert_eq!(emp1.name, name1);
    assert_eq!(emp1.email, email1);
    assert_eq!(emp1.position, position1);
    assert_eq!(emp1.department, department1);
    assert_eq!(emp2.name, name2);
    assert_eq!(emp2.email, email2);
    assert_eq!(emp2.position, position2);
    assert_eq!(emp2.department, department2);
}

#[test]
fn test_deactivate_employee() {
    let mut c = SalaryStreamingContract::new();

    c.register_employee(
        EMPLOYER,
        EMPLOYEE,
        "John Doe".to_string(),
        "john@company.com".to_string(),
        "+90 555 123 4567".to_string(),
        "Developer".to_string(),
        "Engineering".to_string(),
        1640995200u64,
        0,
    );

    let employee_info = c.get_employee_info(EMPLOYEE).unwrap();
    assert!(employee_info.is_active);
    assert!(employee_info.end_date.is_none());

    c.deactivate_employee(EMPLOYER, EMPLOYEE, 5).unwrap();

    let employee_info = c.get_employee_info(EMPLOYEE).unwrap();
    assert!(!employee_info.is_active);
    assert!(employee_info.end_date.is_some());
}

#[test]
fn test_reactivate_employee() {
    let mut c = SalaryStreamingContract::new();

    c.register_employee(
        EMPLOYER,
        EMPLOYEE,
        "John Doe".to_string(),
        "john@company.com".to_string(),
        "+90 555 123 4567".to_string(),
        "Developer".to_string(),
        "Engineering".to_string(),
        1640995200u64,
        0,
    );

    c.deactivate_employee(EMPLOYER, EMPLOYEE, 5).unwrap();
    let employee_info = c.get_employee_info(EMPLOYEE).unwrap();
    assert!(!employee_info.is_active);
    assert!(employee_info.end_date.is_some());

    c.reactivate_employee(EMPLOYER, EMPLOYEE).unwrap();

    let employee_info = c.get_employee_info(EMPLOYEE).unwrap();
    assert!(employee_info.is_active);
    assert!(employee_info.end_date.is_none());
}

#[test]
fn test_update_employee_position() {
    let mut c = SalaryStreamingContract::new();

    let name = "John Doe".to_string();
    let email = "john@company.com".to_string();
    let phone = "+90 555 123 4567".to_string();
    let initial_position = "Junior Developer".to_string();
    let initial_department = "Engineering".to_string();
    let new_position = "Senior Developer".to_string();
    let new_department = "Engineering".to_string();
    let start_date = 1640995200u64;

    c.register_employee(
        EMPLOYER,
        EMPLOYEE,
        name.clone(),
        email.clone(),
        phone.clone(),
        initial_position,
        initial_department,
        start_date,
        0,
    );

    c.update_employee_position(EMPLOYER, EMPLOYEE, new_position.clone(), new_department.clone())
        .unwrap();

    let employee_info = c.get_employee_info(EMPLOYEE).unwrap();
    assert_eq!(employee_info.position, new_position);
    assert_eq!(employee_info.department, new_department);
    assert_eq!(employee_info.name, name);
    assert_eq!(employee_info.email, email);
    assert_eq!(employee_info.phone, phone);
}

#[test]
fn test_employee_record_errors() {
    let mut c = SalaryStreamingContract::new();
    assert!(matches!(c.get_employee_info(EMPLOYEE), Err(Error::NotFound)));
    assert!(c.update_employee_info(
        EMPLOYER,
        EMPLOYEE,
        "a".to_string(),
        "b".to_string(),
        "c".to_string(),
        "d".to_string(),
        "e".to_string(),
    )
    .is_err());

    c.register_employee(
        EMPLOYER,
        EMPLOYEE,
        "John".to_string(),
        "j@c".to_string(),
        "1".to_string(),
        "Dev".to_string(),
        "Eng".to_string(),
        0,
        0,
    );
    // Only the recorded employer may manage the record.
    assert_eq!(c.deactivate_employee(STRANGER, EMPLOYEE, 1), Err(Error::Unauthorized));
    assert_eq!(c.reactivate_employee(STRANGER, EMPLOYEE), Err(Error::Unauthorized));
    assert_eq!(
        c.update_employee_position(STRANGER, EMPLOYEE, "x".to_string(), "y".to_string()),
        Err(Error::Unauthorized)
    );
}

#[test]
fn test_reregistration_replaces_record() {
    let mut c = SalaryStreamingContract::new();
    c.register_employee(
        EMPLOYER,
        EMPLOYEE,
        "John".to_string(),
        "j@c".to_string(),
        "1".to_string(),
        "Dev".to_string(),
        "Eng".to_string(),
        100,
        100,
    );
    c.deactivate_employee(EMPLOYER, EMPLOYEE, 200).unwrap();

    // Re-registering rewrites the record wholesale: active again, no end date.
    c.register_employee(
        EMPLOYER,
        EMPLOYEE,
        "Johnny".to_string(),
        "j2@c".to_string(),
        "2".to_string(),
        "Lead".to_string(),
        "Eng".to_string(),
        300,
        300,
    );
    let info = c.get_employee_info(EMPLOYEE).unwrap();
    assert_eq!(info.name, "Johnny");
    assert!(info.is_active);
    assert!(info.end_date.is_none());
    assert_eq!(info.registration_time, 300);
    // The roster does not list the employee twice.
    assert_eq!(c.get_employer_employees(EMPLOYER).len(), 1);
}
