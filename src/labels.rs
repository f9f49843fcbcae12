//! Label texts: how drawers and positions are named, and the data printed
//! on folder, envelope and box labels.
use vstd::prelude::*;

use crate::clock::{decimal, decimal_of, utc_now_rfc3339};
use crate::reports::LabelData;
use crate::store::{id_in, ArchiveDatabase, ArchiveError};
use crate::text::opt_view;

verus! {

/// How a drawer is named: the cabinet's number, `-G`, and the drawer's
/// number.
pub open spec fn drawer_label_text(cabinet: Seq<char>, drawer: int) -> Seq<char> {
    cabinet + "-G"@ + decimal_of(drawer)
}

/// How a position is named: its drawer's name, `-P`, and its number.
pub open spec fn position_label_text(cabinet: Seq<char>, drawer: int, position: int) -> Seq<char> {
    drawer_label_text(cabinet, drawer) + "-P"@ + decimal_of(position)
}

/// Names a drawer.
pub fn drawer_label(cabinet: &str, drawer: i64) -> (r: String)
    ensures
        r@ == drawer_label_text(cabinet@, drawer as int),
{
    let d = decimal(drawer);
    cabinet.to_string().concat("-G").concat(d.as_str())
}

/// Names a position.
pub fn position_label(cabinet: &str, drawer: i64, position: i64) -> (r: String)
    ensures
        r@ == position_label_text(cabinet@, drawer as int, position as int),
{
    let p = decimal(position);
    drawer_label(cabinet, drawer).concat("-P").concat(p.as_str())
}

/// The details of a label hold `key` with `value`.
pub open spec fn has_detail(details: Seq<(String, String)>, key: Seq<char>, value: Seq<char>) -> bool {
    exists|i: int| 0 <= i < details.len() && details[i].0@ == key && details[i].1@ == value
}

/// The details of a label hold no entry `key`.
pub open spec fn lacks_detail(details: Seq<(String, String)>, key: Seq<char>) -> bool {
    forall|i: int| 0 <= i < details.len() ==> details[i].0@ != key
}

impl ArchiveDatabase {
    /// The label of an employee's folder: the name, the registration, the
    /// department if any, the admission date, and the position if any.
    pub fn generate_folder_label(&self, employee_id: i64) -> (r: Result<LabelData, ArchiveError>)
        requires
            self.wf(),
        ensures
            r matches Err(e) ==> (e == ArchiveError::NotFound),
            !id_in(employee_id, self.employees@.len() as int) <==> r == Err::<LabelData, ArchiveError>(
                ArchiveError::NotFound,
            ),
            r matches Ok(l) ==> {
                let e = self.employees@[employee_id - 1];
                &&& l.title@ == e.full_name@
                &&& opt_view(l.subtitle) == Some(e.registration@)
                &&& has_detail(l.details@, "Matrícula"@, e.registration@)
                &&& has_detail(l.details@, "Admissão"@, e.admission_date@)
                &&& (self.department_name_spec(e.department_id) matches Some(n) ==> has_detail(
                    l.details@,
                    "Departamento"@,
                    n,
                ))
                &&& (self.department_name_spec(e.department_id) is None ==> lacks_detail(
                    l.details@,
                    "Departamento"@,
                ))
                &&& (e.drawer_position_id matches Some(p) ==> {
                    let pos = self.positions@[p - 1];
                    let d = self.drawers@[pos.drawer_id - 1];
                    has_detail(
                        l.details@,
                        "Localização"@,
                        position_label_text(
                            self.cabinets@[d.file_cabinet_id - 1].number@,
                            d.number as int,
                            pos.position as int,
                        ),
                    )
                })
                &&& (e.drawer_position_id is None ==> lacks_detail(l.details@, "Localização"@))
            },
    {
        let e = match self.get_employee_by_id(employee_id) {
            Ok(e) => e,
            Err(err) => {
                return Err(err);
            },
        };
        let mut details: Vec<(String, String)> = Vec::new();
        details.push((String::from_str("Matrícula"), e.registration.clone()));
        if let Some(n) = &e.department_name {
            details.push((String::from_str("Departamento"), n.clone()));
        }
        details.push((String::from_str("Admissão"), e.admission_date.clone()));
        if let Some(p) = e.drawer_position_id {
            let pos = &self.positions[(p - 1) as usize];
            assert(id_in(pos.drawer_id, self.drawers@.len() as int));
            let d = &self.drawers[(pos.drawer_id - 1) as usize];
            assert(id_in(d.file_cabinet_id, self.cabinets@.len() as int));
            let cab = &self.cabinets[(d.file_cabinet_id - 1) as usize];
            details.push((String::from_str("Localização"), position_label(cab.number.as_str(), d.number, pos.position)));
        }
        proof {
            reveal_strlit("Matrícula");
            reveal_strlit("Departamento");
            reveal_strlit("Admissão");
            reveal_strlit("Localização");
            assert(details@[0].0@ == "Matrícula"@);
        }
        let ghost dv = details@;
        proof {
            assert("Matrícula"@.len() == 9 && "Admissão"@.len() == 8);
            assert("Localização"@.len() == 11 && "Departamento"@.len() == 12);
            if let Some(n) = &e.department_name {
                assert(dv[1].0@ == "Departamento"@);
                assert(dv[2].0@ == "Admissão"@);
            } else {
                assert(dv[1].0@ == "Admissão"@);
                assert forall|i: int| 0 <= i < dv.len() implies dv[i].0@ != "Departamento"@ by {
                    assert(dv[i].0@.len() != 12);
                }
            }
            if let Some(p) = e.drawer_position_id {
                let pos = self.positions@[p - 1];
                let d = self.drawers@[pos.drawer_id - 1];
                let last = dv[dv.len() - 1];
                assert(last.0@ == "Localização"@);
                assert(last.1@ == position_label_text(
                    self.cabinets@[d.file_cabinet_id - 1].number@,
                    d.number as int,
                    pos.position as int,
                ));
            }
            if e.drawer_position_id.is_none() {
                assert forall|i: int| 0 <= i < dv.len() implies dv[i].0@ != "Localização"@ by {
                    assert(dv[i].0@.len() != 11);
                }
            }
        }
        Ok(LabelData {
            title: e.full_name.clone(),
            subtitle: Some(e.registration),
            details,
            generated_at: utc_now_rfc3339(),
        })
    }

    /// The label of an envelope of documents of one category for an
    /// employee.
    pub fn generate_envelope_label(&self, employee_id: i64, category: &str) -> (r: Result<LabelData, ArchiveError>)
        requires
            self.wf(),
        ensures
            r matches Err(e) ==> (e == ArchiveError::NotFound),
            !id_in(employee_id, self.employees@.len() as int) <==> r == Err::<LabelData, ArchiveError>(
                ArchiveError::NotFound,
            ),
            r matches Ok(l) ==> {
                let e = self.employees@[employee_id - 1];
                &&& l.title@ == e.full_name@
                &&& opt_view(l.subtitle) == Some(category@)
                &&& l.details@.len() == 2
                &&& l.details@[0].0@ == "Matrícula"@ && l.details@[0].1@ == e.registration@
                &&& l.details@[1].0@ == "Categoria"@ && l.details@[1].1@ == category@
            },
    {
        let e = match self.get_employee_by_id(employee_id) {
            Ok(e) => e,
            Err(err) => {
                return Err(err);
            },
        };
        let mut details: Vec<(String, String)> = Vec::new();
        details.push((String::from_str("Matrícula"), e.registration.clone()));
        details.push((String::from_str("Categoria"), category.to_string()));
        Ok(LabelData {
            title: e.full_name,
            subtitle: Some(category.to_string()),
            details,
            generated_at: utc_now_rfc3339(),
        })
    }

    /// The label of a dead-archive box: its number, its year, the period,
    /// letter range and place when known, and its fill.
    pub fn generate_box_label(&self, box_id: i64) -> (r: Result<LabelData, ArchiveError>)
        requires
            self.wf(),
        ensures
            r matches Err(e) ==> (e == ArchiveError::NotFound),
            !id_in(box_id, self.boxes@.len() as int) <==> r == Err::<LabelData, ArchiveError>(
                ArchiveError::NotFound,
            ),
            r matches Ok(l) ==> {
                let b = self.boxes@[box_id - 1];
                &&& l.title@ == "Caixa "@ + b.box_number@
                &&& opt_view(l.subtitle) == Some("Arquivo Morto "@ + decimal_of(b.year as int))
                &&& has_detail(l.details@, "Ano"@, decimal_of(b.year as int))
                &&& has_detail(
                    l.details@,
                    "Capacidade"@,
                    decimal_of(b.current_count as int) + "/"@ + decimal_of(b.capacity as int),
                )
                &&& (b.period matches Some(p) ==> has_detail(l.details@, "Período"@, p@))
                &&& (b.letter_range matches Some(f) ==> has_detail(l.details@, "Faixa"@, f@))
                &&& (b.location matches Some(x) ==> has_detail(l.details@, "Local"@, x@))
            },
    {
        if box_id < 1 || box_id > self.boxes.len() as i64 {
            return Err(ArchiveError::NotFound);
        }
        let b = &self.boxes[(box_id - 1) as usize];
        let year = decimal(b.year);
        let mut details: Vec<(String, String)> = Vec::new();
        details.push((String::from_str("Ano"), year.clone()));
        let ghost after_year = details@;
        if let Some(p) = &b.period {
            details.push((String::from_str("Período"), p.clone()));
        }
        let ghost after_period = details@;
        if let Some(f) = &b.letter_range {
            details.push((String::from_str("Faixa"), f.clone()));
        }
        let ghost after_range = details@;
        if let Some(x) = &b.location {
            details.push((String::from_str("Local"), x.clone()));
        }
        let ghost after_place = details@;
        let fill = decimal(b.current_count).concat("/").concat(decimal(b.capacity).as_str());
        details.push((String::from_str("Capacidade"), fill));
        proof {
            let dv = details@;
            assert(dv[0] == after_year[0]);
            if let Some(p) = &b.period {
                assert(dv[after_year.len() as int] == after_period[after_year.len() as int]);
            }
            if let Some(f) = &b.letter_range {
                assert(dv[after_period.len() as int] == after_range[after_period.len() as int]);
            }
            if let Some(x) = &b.location {
                assert(dv[after_range.len() as int] == after_place[after_range.len() as int]);
            }
            assert(dv[dv.len() - 1].0@ == "Capacidade"@);
        }
        Ok(LabelData {
            title: String::from_str("Caixa ").concat(b.box_number.as_str()),
            subtitle: Some(String::from_str("Arquivo Morto ").concat(year.as_str())),
            details,
            generated_at: utc_now_rfc3339(),
        })
    }
}

} // verus!
