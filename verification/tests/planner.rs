//! Loader, resolver and end-to-end planner tests over small document
//! fixtures.

use x4productionplanner::catalog::Wares;
use x4productionplanner::counts::{CountsInput, CountsOutput};
use x4productionplanner::data::Data;
use x4productionplanner::errors::DataError;
use x4productionplanner::rates::Rate;
use x4productionplanner::langs::find_langs;
use x4productionplanner::text::str_to_chars;
use x4productionplanner::translations::Translations;

const WARES1: &str = r#"
<!-- line 195751 -->
<languages>
  <!-- English -->
  <language id="44" name="English" voice="true" warning="A restart is required for changes to take effect!" />
  <!-- German -->
  <language id="49" name="Deutsch" voice="true" warning="Damit die čåŌöönderung wirksam wird, ist ein Neustart notwendig!" />
  <!-- French -->
  <language id="33" name="FrančåŌĢ¢ais" voice="true" warning="Un redčåŌĢśmarrage est nčåŌĢścessaire pour la prise en compte des changements !" />
  <!-- Italian -->
  <language id="39" name="Italiano" warning="I cambiamenti saranno effettivi al prossimo riavvio!" />
  <!-- Russian -->
  <language id="7" name="ą┐ŌĢÉčÅŌöÉčÅŌöéčÅŌöéą┐ŌĢ©ą┐ŌĢ”ą┐ŌĢ¦" voice="true" warning="ą┐├Ęą┐ŌĢŻčÅŌöĆą┐ŌĢŻą┐ŌĢźą┐ŌĢ¤ą┐ąüčÅŌöĆčÅŌöÉą┐ŌĢźą┐ŌĢ”čÅŌöīą┐ŌĢŻ ą┐ŌĢ”ą┐ąüčÅŌöĆčÅŌöÉ, čÅŌöżčÅŌöīą┐ŌĢ¼ą┐ŌĢĀčÅŌ¢Ć ą┐ŌĢ”ą┐ŌĢźą┐ŌĢ¬ą┐ŌĢŻą┐ŌĢ½ą┐ŌĢŻą┐ŌĢ½ą┐ŌĢ”čÅŌ¢É ą┐ŌĢĪčÅŌöéčÅŌöīčÅŌöÉą┐┬®ą┐ŌĢ”ą┐ŌĢ®ą┐ŌĢ” ą┐ŌĢĪ čÅŌöéą┐ŌĢ”ą┐ŌĢ®čÅŌöÉ!" />
  <!-- Spanish -->
  <language id="34" name="EspačåŌĢĀol" warning="ą▒ŌĢæEs necesario reiniciar para que los cambios surtan efecto!" />
  <!-- Portuguese (Brazil) -->
  <language id="55" name="PortugučåŌĢÖs (Brasil)" warning="Para que as mudančåŌĢ¢as funcionem, čåŌĢś preciso reiniciar!" />
  <!-- Polish -->
  <language id="48" name="Polski" warning="Wymagane jest ponowne uruchomienie, aby zmiany zadziaąĄŌöīaąĄŌöīy!" />
  <!-- Simplified Chinese -->
  <language id="86" name="ąōŌĢØŌöĆąöŌĢ½ŌīĀąöŌĢ”ŌĢ£ążŌłÜŌöż" font="csfont" displaytimefactor="5.0" warning="ąś┬░ŌöĆąźŌĢĢŌöéąśŌöżŌ¢łążŌłÜŌĢ¤ąĢŌ¢æŌĢ×ąĢŌö╝ŌĢŚąöŌĢ®ŌĢöąöŌĢ½┬®ążŌīĪŌĢóążŌ¢ĀŌĢ¦ąōŌ¢Ā├ĘążŌłÖŌö¼ą×ŌĢ¬Ōöé" />
  <!-- Traditional Chinese -->
  <language id="88" name="ąōŌĢ¦ŌöéąśŌĢÜŌ¢ĀąöŌĢ”ŌĢ£ążŌłÜŌöż" font="ctfont" displaytimefactor="5.0" warning="ąś┬░ŌöĆąźŌĢĢŌöéąśŌöżŌ¢łążŌłÜŌĢ¤ąĢŌłÖ├ĘąĢŌ¢ĆŌłÖąöŌĢ®ŌĢöąöŌĢ½┬®ążŌīĪŌĢóążŌ¢ĀŌĢ¦ąōŌ¢Ā├ĘążŌłÖŌö¼ą×ŌĢ¬Ōöé" />
  <!-- Korean -->
  <language id="82" name="ą£ŌłÖ┬░ąÖŌĢŻŌĢ£ąøŌłÜŌĢó" font="kofont" displaytimefactor="5.0" warning="ąÜąüŌöĆąÖŌĢĪŌĢ½ąÜŌöīŌĢóąø┬ĀŌĢśąø┬▓ŌĢó ąøŌĢÉŌöéąø┬ĀŌĢśąÜŌ¢æŌēżąÖŌĢ”ŌĢ¤ ąø┬░Ōööą£ŌłÖŌĢóąøŌöö┬░ąÜŌö╝Ō¢Ā ąøŌöÉŌö¼ąÜŌĢæ┬░ ąøŌ¢Ć┬░ąø┬ĘŌ¢Æą£ŌłÖŌēżąøŌöśŌ¢ĀąøŌłÖŌĢ¬ ą£ŌłÖŌĢśąÜŌ¢ĆŌö¼ąÜŌ¢ĆŌĢō." />
  <!-- Japanese -->
  <language id="81" name="ążŌēłŌĢöąż┬░ŌĢøąźŌĢÖ┬Ę" font="jfont" displaytimefactor="5.0" warning="ąĢŌĢōŌö┤ążŌīĪŌĢóą”ŌöīŌ¢ōąż┬░Ōö┤ąĢŌö╝ŌĢ¦ą”ŌöéŌĢÜą”ŌöéŌēźą”ŌöīŌ¢Ćą”ŌöéŌĢÜą”ŌöéŌĢ×ąĢŌö£Ō¢łąźŌĢŻŌĢźąĢŌ¢ĆŌłÖą”ŌöéŌēłą”ŌöéŌĢĢą”ŌöéŌ¢Éą”ŌöéŌĢÉą”ŌöéŌłÖą”ŌöéŌööą×ŌĢ¬Ōöé" />
  <!-- Czech (not supported) -->
  <!-- <language id="42" name="ą┤Ō¢łeąĄŌĢætina" /> -->
</languages>

<!-- line 287816 -->
<wares>
  <production>
    <method id="argon" name="{20206,201}">
      <default race="argon" />
    </method>
    <method id="default" name="{20206,101}" />
    <method id="paranid" name="{20206,301}">
      <default race="paranid" />
    </method>
    <method id="processing" name="{20206,1301}" tags="noplayerbuild recycling" />
    <method id="recycling" name="{20206,1101}" tags="noplayerbuild recycling" />
    <method id="research" name="{20206,501}" tags="noplayerbuild" />
    <method id="teladi" name="{20206,401}">
      <default race="teladi" />
    </method>
    <method id="xenon" name="{20206,601}" tags="noplayerbuild">
      <default race="xenon" />
    </method>
  </production>
  <defaults id="default" name="default" transport="container" volume="1" tags="container">
    <price min="1" average="1" max="1" />
    <production time="10" amount="1" method="default" name="{20206,101}">
      <effects>
        <effect type="efficiency" product="1" />
      </effects>
    </production>
    <container ref="sm_gen_pickup_container_01_macro" />
    <icon active="ware_default" video="ware_noicon_macro" />
  </defaults>

  <ware id="energycells" name="{20201,701}" description="{20201,702}" factoryname="{20201,704}" group="energy" transport="container" volume="1" tags="container economy stationbuilding">
    <price min="10" average="16" max="22" />
    <production time="60" amount="175" method="default" name="{20206,101}">
      <effects>
        <effect type="sunlight" product="1" />
        <effect type="work" product="0.43" />
      </effects>
    </production>
    <icon active="ware_energycells" video="ware_energycells_macro" />
  </ware>
  <ware id="microchips" name="{20201,2201}" description="{20201,2202}" factoryname="{20201,2204}" group="hightech" transport="container" volume="22" tags="container economy">
    <price min="805" average="948" max="1090" />
    <production time="600" amount="72" method="default" name="{20206,101}">
      <primary>
        <ware ware="energycells" amount="50" />
        <ware ware="siliconwafers" amount="200" />
      </primary>
      <effects>
        <effect type="work" product="0.36" />
      </effects>
    </production>
    <icon active="ware_microchips" video="ware_microchips_macro" />
  </ware>
  <ware id="silicon" name="{20201,3501}" description="{20201,3502}" factoryname="{20201,3504}" group="minerals" transport="solid" volume="10" tags="economy minable mineral solid">
    <price min="111" average="130" max="150" />
    <container ref="sm_gen_pickup_solid_01_macro" />
    <icon active="ware_silicon" video="ware_silicon_macro" />
  </ware>
  <ware id="siliconwafers" name="{20201,3601}" description="{20201,3602}" factoryname="{20201,3604}" group="refined" transport="container" volume="18" tags="container economy">
    <price min="180" average="299" max="419" />
    <production time="180" amount="107" method="default" name="{20206,101}">
      <primary>
        <ware ware="energycells" amount="90" />
        <ware ware="silicon" amount="240" />
      </primary>
      <effects>
        <effect type="work" product="0.37" />
      </effects>
    </production>
    <icon active="ware_siliconwafers" video="ware_siliconwafers_macro" />
  </ware>
</wares>
"#;

const TRANSLATIONS1: &str = r#"
<!-- line 307812 -->
<language id="44">
  <!-- line 355941 -->
  <page id="20201" title="Wares" descr="Names and descriptions of wares" voice="yes">
    <t id="100">(*PRODUCED WARES*)</t>
    <t id="701">Energy Cells</t>
    <t id="702">Contrary to common belief, Energy Cells are not simply glorified batteries; actually, they are sophisticated bio-chemical \(or bio-mechanical, depending on technology\) devices capable of storing energy near or at 100% efficiency.</t>
    <t id="704">Solar Power Plant</t>
    <t id="2201">Microchips</t>
    <t id="2202">Used in a wide variety of equipment parts, micro-chips are produced using silicon wafers, which, while fragile, allows them to conduct at a much higher rate. This, in turn, allows far better processing in the equipment that uses the micro-chips, which includes many advanced electronics and components.</t>
    <t id="2204">Microchip Factory</t>
    <t id="3501">Silicon</t>
    <t id="3502">Silicon, required for the production of the most common types of silicon wafers, is usually mined or harvested from asteroids or other uninhabited celestial bodies.</t>
    <t id="3504">Silicon Mine</t>
    <t id="3601">Silicon Wafers</t>
    <t id="3602">If a technology requires any kind of chip, it is highly likely that is uses silicon wafers. Light, efficient and cheap to produce, these wafers are usually layered or constructed in hexagonal meshes to allow for quick transfer of data across a component.</t>
    <t id="3604">Silicon Refinery</t>
  </page>

  <!-- line 294946 -->
  <page id="20202" title="Races" descr="Names and descriptions of races" voice="yes">
    <t id="101">Argon</t>
    <t id="102">The descendents of Terran colonists stranded from Earth centuries ago, the Argon became their own thriving civilisation covering a great many systems and forging relations with several alien races. Throughout their short history the Argon Federation has been plagued by war, notably with the Xenon. Their greatest challenge however came from the unlikely source of the reconnected Terrans of Earth where they were plunged into the costly Terran Conflict.</t>
    <t id="201">Boron</t>
    <t id="202">The predominantly peaceful Boron are aquatic life-forms from the planet Nishala. While initially pacifist, the discovery of their world by the Split forced them to invent defences and adapt to war. Enjoying a close relationship with the Argon, the Boron remain a wise and measured people.</t>
    <t id="301">Split</t>
    <t id="302">The aggressive Split live in a society constantly changing leadership where challenging factions rise up to impose a new Patriarch. Their short temper and fiery disposition puts them at odds with other races which has sometimes lead to war, notably with the Boron and Argon.</t>
    <t id="401">Paranid</t>
    <t id="402">The physically imposing Paranid are often regarded as arrogant by several races which usually stems from their exceptional mathematic skills and religious fervour. Allied with the Split and distrusting of the Argon, the Paranid have been in several conflicts where they use their technological prowess and multilevel thinking to gain tactical advantages.</t>
    <t id="501">Teladi</t>
    <t id="502">The lizard-like Teladi are one of the founding members of the Community of Planets and have a natural affinity towards business and the accumulation of profit. They enjoy favourable relations with other races although some find their drive for profit disconcerting. Their long lifespan gives them a unique view of the Jump Gate shutdown, as does their previous experience being cut off from their home system of Ianamus Zura.</t>
    <t id="601">Xenon</t>
    <t id="602">The Xenon are a mechanical race resulting from past Terran terraformer ships which eventually evolved intelligence. A constant threat in many areas of the galaxy, it is thought that the Jump Gate shutdown may stem their movements but given their disregard of time it is possible they may simply travel between stars. The Xenon have no known allies and communication with them is often relegated to folklore.</t>
    <t id="701">Terran</t>
    <t id="702">The Terrans of the Solar System have a long history of spaceflight and exploring the Jump Gate network. After the events of the Terraformers over Earth, the Terrans severed their contact with the rest of the galaxy and had several centuries of rebuilding and advancement in isolation. Their brief return led to the Terran Conflict which preceded the mass disconnection of Jump Gates. It is unknown if the war precipitated this event.</t>
    <t id="901">Kha'ak</t>
    <t id="902">Thought to have been wiped out during Operation Final Fury, very little is known about the Kha'ak other than they seem to be an insectile hive race hell-bent on the destruction of all those that share the Jump Gate network. As a hive race, it is suspected that individual intelligence gives way to a communal or caste mentality, but very little research into the species was completed before Operation Final Fury took place.</t>
  </page>

  <!-- line 356957 -->
  <page id="20206" title="Ware Production Methods" descr="Names and descriptions of production methods used to produce wares" voice="yes">
    <t id="101">Universal</t>
    <t id="201">(Argon){20202,101}</t>
    <t id="301">(Paranid){20202,401}</t>
    <t id="401">(Teladi){20202,501}</t>
    <t id="501">Research</t>
    <t id="601">(Xenon){20202,601}</t>
    <t id="701">(Split){20202,301}</t>
    <t id="801">(Boron){20202,201}</t>
    <t id="901">(Terran){20202,701}</t>
    <t id="1001">Default</t>
  </page>
</language>
"#;

const WARES2: &str = r#"
<!-- line 195751 -->
<languages>
  <!-- English -->
  <language id="44" name="English" voice="true" warning="A restart is required for changes to take effect!" />
  <!-- German -->
  <language id="49" name="Deutsch" voice="true" warning="Damit die čåŌöönderung wirksam wird, ist ein Neustart notwendig!" />
  <!-- French -->
  <language id="33" name="FrančåŌĢ¢ais" voice="true" warning="Un redčåŌĢśmarrage est nčåŌĢścessaire pour la prise en compte des changements !" />
  <!-- Italian -->
  <language id="39" name="Italiano" warning="I cambiamenti saranno effettivi al prossimo riavvio!" />
  <!-- Russian -->
  <language id="7" name="ą┐ŌĢÉčÅŌöÉčÅŌöéčÅŌöéą┐ŌĢ©ą┐ŌĢ”ą┐ŌĢ¦" voice="true" warning="ą┐├Ęą┐ŌĢŻčÅŌöĆą┐ŌĢŻą┐ŌĢźą┐ŌĢ¤ą┐ąüčÅŌöĆčÅŌöÉą┐ŌĢźą┐ŌĢ”čÅŌöīą┐ŌĢŻ ą┐ŌĢ”ą┐ąüčÅŌöĆčÅŌöÉ, čÅŌöżčÅŌöīą┐ŌĢ¼ą┐ŌĢĀčÅŌ¢Ć ą┐ŌĢ”ą┐ŌĢźą┐ŌĢ¬ą┐ŌĢŻą┐ŌĢ½ą┐ŌĢŻą┐ŌĢ½ą┐ŌĢ”čÅŌ¢É ą┐ŌĢĪčÅŌöéčÅŌöīčÅŌöÉą┐┬®ą┐ŌĢ”ą┐ŌĢ®ą┐ŌĢ” ą┐ŌĢĪ čÅŌöéą┐ŌĢ”ą┐ŌĢ®čÅŌöÉ!" />
  <!-- Spanish -->
  <language id="34" name="EspačåŌĢĀol" warning="ą▒ŌĢæEs necesario reiniciar para que los cambios surtan efecto!" />
  <!-- Portuguese (Brazil) -->
  <language id="55" name="PortugučåŌĢÖs (Brasil)" warning="Para que as mudančåŌĢ¢as funcionem, čåŌĢś preciso reiniciar!" />
  <!-- Polish -->
  <language id="48" name="Polski" warning="Wymagane jest ponowne uruchomienie, aby zmiany zadziaąĄŌöīaąĄŌöīy!" />
  <!-- Simplified Chinese -->
  <language id="86" name="ąōŌĢØŌöĆąöŌĢ½ŌīĀąöŌĢ”ŌĢ£ążŌłÜŌöż" font="csfont" displaytimefactor="5.0" warning="ąś┬░ŌöĆąźŌĢĢŌöéąśŌöżŌ¢łążŌłÜŌĢ¤ąĢŌ¢æŌĢ×ąĢŌö╝ŌĢŚąöŌĢ®ŌĢöąöŌĢ½┬®ążŌīĪŌĢóążŌ¢ĀŌĢ¦ąōŌ¢Ā├ĘążŌłÖŌö¼ą×ŌĢ¬Ōöé" />
  <!-- Traditional Chinese -->
  <language id="88" name="ąōŌĢ¦ŌöéąśŌĢÜŌ¢ĀąöŌĢ”ŌĢ£ążŌłÜŌöż" font="ctfont" displaytimefactor="5.0" warning="ąś┬░ŌöĆąźŌĢĢŌöéąśŌöżŌ¢łążŌłÜŌĢ¤ąĢŌłÖ├ĘąĢŌ¢ĆŌłÖąöŌĢ®ŌĢöąöŌĢ½┬®ążŌīĪŌĢóążŌ¢ĀŌĢ¦ąōŌ¢Ā├ĘążŌłÖŌö¼ą×ŌĢ¬Ōöé" />
  <!-- Korean -->
  <language id="82" name="ą£ŌłÖ┬░ąÖŌĢŻŌĢ£ąøŌłÜŌĢó" font="kofont" displaytimefactor="5.0" warning="ąÜąüŌöĆąÖŌĢĪŌĢ½ąÜŌöīŌĢóąø┬ĀŌĢśąø┬▓ŌĢó ąøŌĢÉŌöéąø┬ĀŌĢśąÜŌ¢æŌēżąÖŌĢ”ŌĢ¤ ąø┬░Ōööą£ŌłÖŌĢóąøŌöö┬░ąÜŌö╝Ō¢Ā ąøŌöÉŌö¼ąÜŌĢæ┬░ ąøŌ¢Ć┬░ąø┬ĘŌ¢Æą£ŌłÖŌēżąøŌöśŌ¢ĀąøŌłÖŌĢ¬ ą£ŌłÖŌĢśąÜŌ¢ĆŌö¼ąÜŌ¢ĆŌĢō." />
  <!-- Japanese -->
  <language id="81" name="ążŌēłŌĢöąż┬░ŌĢøąźŌĢÖ┬Ę" font="jfont" displaytimefactor="5.0" warning="ąĢŌĢōŌö┤ążŌīĪŌĢóą”ŌöīŌ¢ōąż┬░Ōö┤ąĢŌö╝ŌĢ¦ą”ŌöéŌĢÜą”ŌöéŌēźą”ŌöīŌ¢Ćą”ŌöéŌĢÜą”ŌöéŌĢ×ąĢŌö£Ō¢łąźŌĢŻŌĢźąĢŌ¢ĆŌłÖą”ŌöéŌēłą”ŌöéŌĢĢą”ŌöéŌ¢Éą”ŌöéŌĢÉą”ŌöéŌłÖą”ŌöéŌööą×ŌĢ¬Ōöé" />
  <!-- Czech (not supported) -->
  <!-- <language id="42" name="ą┤Ō¢łeąĄŌĢætina" /> -->
</languages>

<!-- line 287816 -->
<wares>
  <production>
    <method id="argon" name="{20206,201}">
      <default race="argon" />
    </method>
    <method id="default" name="{20206,101}" />
    <method id="paranid" name="{20206,301}">
      <default race="paranid" />
    </method>
    <method id="processing" name="{20206,1301}" tags="noplayerbuild recycling" />
    <method id="recycling" name="{20206,1101}" tags="noplayerbuild recycling" />
    <method id="research" name="{20206,501}" tags="noplayerbuild" />
    <method id="teladi" name="{20206,401}">
      <default race="teladi" />
    </method>
    <method id="xenon" name="{20206,601}" tags="noplayerbuild">
      <default race="xenon" />
    </method>
  </production>

  <ware id="engine_arg_s_allround_01_mk1" name="{20107,1004}" description="{20107,1002}" group="engines" transport="equipment" volume="1" tags="engine equipment">
    <price min="5526" average="6140" max="6754" />
    <production time="10" amount="1" method="default" name="{20206,101}">
      <primary>
        <ware ware="energycells" amount="10" />
        <ware ware="engineparts" amount="4" />
      </primary>
    </production>
    <component ref="engine_arg_s_allround_01_mk1_macro" />
    <restriction licence="generaluseequipment" />
    <use threshold="0" />
    <owner faction="alliance" />
    <owner faction="antigone" />
    <owner faction="argon" />
    <owner faction="buccaneers" />
    <owner faction="hatikvah" />
  </ware>
  <ware id="energycells" name="{20201,701}" description="{20201,702}" factoryname="{20201,704}" group="energy" transport="container" volume="1" tags="container economy stationbuilding">
    <price min="10" average="16" max="22" />
    <production time="60" amount="175" method="default" name="{20206,101}">
      <effects>
        <effect type="sunlight" product="1" />
        <effect type="work" product="0.43" />
      </effects>
    </production>
    <icon active="ware_energycells" video="ware_energycells_macro" />
  </ware>
  <ware id="engineparts" name="{20201,801}" description="{20201,802}" factoryname="{20201,804}" group="hightech" transport="container" volume="15" tags="container economy">
    <price min="128" average="182" max="237" />
    <production time="900" amount="208" method="default" name="{20206,101}">
      <primary>
        <ware ware="antimattercells" amount="80" />
        <ware ware="energycells" amount="60" />
        <ware ware="refinedmetals" amount="96" />
      </primary>
      <effects>
        <effect type="work" product="0.47" />
      </effects>
    </production>
    <production time="900" amount="208" method="teladi" name="{20206,401}">
      <primary>
        <ware ware="antimattercells" amount="80" />
        <ware ware="energycells" amount="60" />
        <ware ware="teladianium" amount="70" />
      </primary>
      <effects>
        <effect type="work" product="0.47" />
      </effects>
    </production>
    <icon active="ware_engineparts" video="ware_engineparts_macro" />
  </ware>
  <ware id="antimattercells" name="{20201,201}" description="{20201,202}" factoryname="{20201,204}" group="refined" transport="container" volume="18" tags="container economy">
    <price min="121" average="202" max="282" />
    <production time="120" amount="99" method="default" name="{20206,101}">
      <primary>
        <ware ware="energycells" amount="100" />
        <ware ware="hydrogen" amount="320" />
      </primary>
      <effects>
        <effect type="work" product="0.35" />
      </effects>
    </production>
    <icon active="ware_antimattercells" video="ware_antimattercells_macro" />
  </ware>
  <ware id="hydrogen" name="{20201,1301}" description="{20201,1302}" factoryname="{20201,1304}" group="gases" transport="liquid" volume="6" tags="economy gas liquid minable">
    <price min="49" average="58" max="67" />
    <container ref="sm_gen_pickup_liquid_01_macro" />
    <icon active="ware_hydrogen" video="ware_hydrogen_macro" />
  </ware>
  <ware id="refinedmetals" name="{20201,3201}" description="{20201,3202}" factoryname="{20201,3204}" group="refined" transport="container" volume="14" tags="container economy">
    <price min="89" average="148" max="207" />
    <production time="150" amount="88" method="default" name="{20206,101}">
      <primary>
        <ware ware="energycells" amount="90" />
        <ware ware="ore" amount="240" />
      </primary>
      <effects>
        <effect type="work" product="0.43" />
      </effects>
    </production>
    <icon active="ware_refinedmetals" video="ware_refinedmetals_macro" />
  </ware>
  <ware id="ore" name="{20201,2701}" description="{20201,2702}" factoryname="{20201,2704}" group="minerals" transport="solid" volume="10" tags="economy minable mineral solid">
    <price min="43" average="50" max="58" />
    <container ref="sm_gen_pickup_solid_01_macro" />
    <icon active="ware_ore" video="ware_ore_macro" />
  </ware>
</wares>
"#;

const TRANSLATIONS2: &str = r#"
<!-- line 307812 -->
<language id="44">
  <!-- line 355941 -->
  <page id="20201" title="Wares" descr="Names and descriptions of wares" voice="yes">
    <t id="100">(*PRODUCED WARES*)</t>
    <t id="201">Antimatter Cells</t>
    <t id="202">Highly advanced magnetic storage devices that carry antimatter. Due to the effect of Hawking radiation and their being self-powered, antimatter cells cannot store antimatter indefinitely. They are produced and filled using refined hydrogen and primarily used in the production of engine parts, and also can be miniaturised to be used in claytronics.</t>
    <t id="204">Antimatter Cell Factory</t>
    <t id="701">Energy Cells</t>
    <t id="702">Contrary to common belief, Energy Cells are not simply glorified batteries; actually, they are sophisticated bio-chemical \(or bio-mechanical, depending on technology\) devices capable of storing energy near or at 100% efficiency.</t>
    <t id="704">Solar Power Plant</t>
    <t id="801">Engine Parts</t>
    <t id="802">Comprised of a number of different components that make up ship engines, engine parts are delivered straight to the end customer, most commonly shipyards and equipment docks, who then use them themselves to produce or repair engines. While naturally engine parts are a very necessary resource across the entire Jump Gate network, the ability to produce and repair engines on demand, instead of requiring an entirely separate production step for each, has greatly streamlined the universal economy.</t>
    <t id="804">Engine Part Factory</t>
    <t id="1301">Hydrogen</t>
    <t id="1302">Historically, Hydrogen has been used mainly in H-fusion generators. These days however, with the rise of sustainable M/AM mass conversion, Hydrogen is routinely converted into anti-Hydrogen for use in Antimatter Cells.</t>
    <t id="1304">Hydrogen Extractor</t>
    <t id="3201">Refined Metals</t>
    <t id="3202">Refined from ore found in countless asteroids across the Jump Gate network, these refined metals are cheap to produce and easy to reinforce, making them perfect for use in constructing all kinds of Hull Parts, not just for ships and stations, but also for smaller components that used across all of space.</t>
    <t id="3204">Ore Refinery</t>
    <t id="2701">Ore</t>
    <t id="2702">Today ore tends not to be mined on habitable worlds, but harvested from other celestial bodies, mainly asteroids. As could be expected, Ore must always be refined to be of any use.</t>
    <t id="2704">Ore Mine</t>
  </page>

  <!-- line 353566 -->
  <page id="20107" title="Engines Thrusters" descr="Names and descriptions of ship engines" voice="no">
    <t id="1000">(*Small Engines*)</t>
    <t id="1001">All-round Engine</t>
    <t id="1002">{20107,101}{20107,203}{20107,301}{20107,404}</t>
    <t id="1003">All-round</t>
    <t id="1004">(ARG S All-round Engine Mk1){20202,103} {20111,5011} {20107,1001} {20111,101}</t>
  </page>

  <!-- line 35299 -->
  <page id="20111" title="Object Variations" descr="Names and descriptions of object variations" voice="yes">
    <t id="101">Mk1</t>
    <t id="5011">(small)S</t>
  </page>

  <!-- line 294946 -->
  <page id="20202" title="Races" descr="Names and descriptions of races" voice="yes">
    <t id="101">Argon</t>
    <t id="102">The descendents of Terran colonists stranded from Earth centuries ago, the Argon became their own thriving civilisation covering a great many systems and forging relations with several alien races. Throughout their short history the Argon Federation has been plagued by war, notably with the Xenon. Their greatest challenge however came from the unlikely source of the reconnected Terrans of Earth where they were plunged into the costly Terran Conflict.</t>
    <t id="103">ARG</t>
    <t id="201">Boron</t>
    <t id="202">The predominantly peaceful Boron are aquatic life-forms from the planet Nishala. While initially pacifist, the discovery of their world by the Split forced them to invent defences and adapt to war. Enjoying a close relationship with the Argon, the Boron remain a wise and measured people.</t>
    <t id="301">Split</t>
    <t id="302">The aggressive Split live in a society constantly changing leadership where challenging factions rise up to impose a new Patriarch. Their short temper and fiery disposition puts them at odds with other races which has sometimes lead to war, notably with the Boron and Argon.</t>
    <t id="401">Paranid</t>
    <t id="402">The physically imposing Paranid are often regarded as arrogant by several races which usually stems from their exceptional mathematic skills and religious fervour. Allied with the Split and distrusting of the Argon, the Paranid have been in several conflicts where they use their technological prowess and multilevel thinking to gain tactical advantages.</t>
    <t id="501">Teladi</t>
    <t id="502">The lizard-like Teladi are one of the founding members of the Community of Planets and have a natural affinity towards business and the accumulation of profit. They enjoy favourable relations with other races although some find their drive for profit disconcerting. Their long lifespan gives them a unique view of the Jump Gate shutdown, as does their previous experience being cut off from their home system of Ianamus Zura.</t>
    <t id="601">Xenon</t>
    <t id="602">The Xenon are a mechanical race resulting from past Terran terraformer ships which eventually evolved intelligence. A constant threat in many areas of the galaxy, it is thought that the Jump Gate shutdown may stem their movements but given their disregard of time it is possible they may simply travel between stars. The Xenon have no known allies and communication with them is often relegated to folklore.</t>
    <t id="701">Terran</t>
    <t id="702">The Terrans of the Solar System have a long history of spaceflight and exploring the Jump Gate network. After the events of the Terraformers over Earth, the Terrans severed their contact with the rest of the galaxy and had several centuries of rebuilding and advancement in isolation. Their brief return led to the Terran Conflict which preceded the mass disconnection of Jump Gates. It is unknown if the war precipitated this event.</t>
    <t id="901">Kha'ak</t>
    <t id="902">Thought to have been wiped out during Operation Final Fury, very little is known about the Kha'ak other than they seem to be an insectile hive race hell-bent on the destruction of all those that share the Jump Gate network. As a hive race, it is suspected that individual intelligence gives way to a communal or caste mentality, but very little research into the species was completed before Operation Final Fury took place.</t>
  </page>

  <!-- line 356957 -->
  <page id="20206" title="Ware Production Methods" descr="Names and descriptions of production methods used to produce wares" voice="yes">
    <t id="101">Universal</t>
    <t id="201">(Argon){20202,101}</t>
    <t id="301">(Paranid){20202,401}</t>
    <t id="401">(Teladi){20202,501}</t>
    <t id="501">Research</t>
    <t id="601">(Xenon){20202,601}</t>
    <t id="701">(Split){20202,301}</t>
    <t id="801">(Boron){20202,201}</t>
    <t id="901">(Terran){20202,701}</t>
    <t id="1001">Default</t>
  </page>
</language>
"#;

fn load_data(wares_doc: &str, tr_doc: &str) -> Data {
    let (wares, langs) = Wares::load_wares_translationids_and_productionmethods_from_string(
        wares_doc.to_string(),
        "local".to_string(),
    )
    .unwrap();
    let translations =
        Translations::load_from_string(tr_doc.to_string(), &wares, &langs, "local".to_string())
            .unwrap();
    Data { wares, translations }
}

#[test]
fn test_wares_parsing() {
    let content = WARES1.to_string();
    let translations = TRANSLATIONS1.to_string();
    let (wares, langs) = Wares::load_wares_translationids_and_productionmethods_from_string(
        content,
        "local".to_string(),
    )
    .unwrap();
    println!("## Done Wares = {:?}", wares);
    let translations =
        Translations::load_from_string(translations, &wares, &langs, "local".to_string())
            .unwrap();
    println!("## Done Translations = {:?}", translations);
    let data = Data { wares, translations };
    let calced = data
        .calc_required_fabric_counts(
            &vec![(
                "Microchips".to_string(),
                CountsInput::WaresPerMinute(Rate { num: 36, den: 1 }),
            )],
            &Vec::new(),
            &Vec::new(),
        )
        .unwrap();
    println!("## Calced = {:?}", calced);
}

#[test]
fn test_translations_parsing() {
    let content = WARES2.to_string();
    let translations = TRANSLATIONS2.to_string();
    let (wares, langs) = Wares::load_wares_translationids_and_productionmethods_from_string(
        content,
        "local".to_string(),
    )
    .unwrap();
    println!("## Done Wares = {:?}", wares);
    let translations =
        Translations::load_from_string(translations, &wares, &langs, "local".to_string())
            .unwrap();
    println!("## Done Translations = {:?}", translations);
    let data = Data { wares, translations };
    let calced = data
        .calc_required_fabric_counts(
            &vec![(
                "ARG S All-round Engine Mk1".to_string(),
                CountsInput::WaresPerMinute(Rate { num: 36, den: 1 }),
            )],
            &Vec::new(),
            &Vec::new(),
        )
        .unwrap();
    println!("## Calced = {:?}", calced);
}

#[test]
fn diamond_merge_counts() {
    let data = load_data(WARES1, TRANSLATIONS1);
    let rows = data
        .calc_required_fabric_counts(
            &vec![(
                "Microchips".to_string(),
                CountsInput::WaresPerMinute(Rate { num: 36, den: 1 }),
            )],
            &Vec::new(),
            &Vec::new(),
        )
        .unwrap();
    let find = |name: &str| {
        rows.iter()
            .find(|r| r.0 == name)
            .unwrap_or_else(|| panic!("no row for {}", name))
    };
    let micro = find("Microchips");
    assert!(matches!(&micro.2, CountsOutput::Produce(m, 5) if m == "Universal"));
    assert_eq!(micro.1, Rate { num: 36, den: 1 });
    let wafers = find("Silicon Wafers");
    assert!(matches!(&wafers.2, CountsOutput::Produce(m, 3) if m == "Universal"));
    assert_eq!(wafers.1, Rate { num: 100, den: 1 });
    let silicon = find("Silicon");
    assert!(matches!(silicon.2, CountsOutput::Import));
    assert_eq!(silicon.1, Rate { num: 240, den: 1 });
    let energy = find("Energy Cells");
    assert!(matches!(&energy.2, CountsOutput::Produce(m, 1) if m == "Universal"));
    assert_eq!(energy.1, Rate { num: 115, den: 1 });
}

#[test]
fn diamond_merge_commutes_with_separate_requests() {
    let data = load_data(WARES1, TRANSLATIONS1);
    let rows = data
        .calc_required_fabric_counts(
            &vec![
                (
                    "Energy Cells".to_string(),
                    CountsInput::WaresPerMinute(Rate { num: 25, den: 1 }),
                ),
                (
                    "Energy Cells".to_string(),
                    CountsInput::WaresPerMinute(Rate { num: 90, den: 1 }),
                ),
            ],
            &Vec::new(),
            &Vec::new(),
        )
        .unwrap();
    assert_eq!(rows.len(), 1);
    assert_eq!(rows[0].1, Rate { num: 115, den: 1 });
    assert!(matches!(&rows[0].2, CountsOutput::Produce(m, 1) if m == "Universal"));
}

#[test]
fn fabrics_request_converts_to_throughput() {
    let data = load_data(WARES1, TRANSLATIONS1);
    let rows = data
        .calc_required_fabric_counts(
            &vec![("Energy Cells".to_string(), CountsInput::Fabrics(2))],
            &Vec::new(),
            &Vec::new(),
        )
        .unwrap();
    assert_eq!(rows[0].1, Rate { num: 350, den: 1 });
    assert!(matches!(&rows[0].2, CountsOutput::Produce(_, 2)));
}

#[test]
fn unknown_name_fails_reverse_translation() {
    let data = load_data(WARES1, TRANSLATIONS1);
    let err = data
        .calc_required_fabric_counts(
            &vec![(
                "No Such Ware".to_string(),
                CountsInput::WaresPerMinute(Rate { num: 1, den: 1 }),
            )],
            &Vec::new(),
            &Vec::new(),
        )
        .unwrap_err();
    assert!(matches!(err, DataError::ReverseTranslationNotFound(n) if n == "No Such Ware"));
}

#[test]
fn unknown_method_in_lists_is_rejected() {
    let data = load_data(WARES1, TRANSLATIONS1);
    let err = data
        .calc_required_fabric_counts(
            &vec![(
                "Microchips".to_string(),
                CountsInput::WaresPerMinute(Rate { num: 1, den: 1 }),
            )],
            &vec!["Microchips".to_string()],
            &Vec::new(),
        )
        .unwrap_err();
    assert!(matches!(err, DataError::UnknownProductionMethod(_)));
}

#[test]
fn intersecting_lists_are_rejected() {
    let data = load_data(WARES1, TRANSLATIONS1);
    let err = data
        .calc_required_fabric_counts(
            &vec![(
                "Microchips".to_string(),
                CountsInput::WaresPerMinute(Rate { num: 1, den: 1 }),
            )],
            &vec!["Universal".to_string()],
            &vec!["Universal".to_string()],
        )
        .unwrap_err();
    assert!(matches!(err, DataError::PriorityBlackListsIntersection(_)));
}

#[test]
fn all_methods_blacklisted_is_rejected() {
    let data = load_data(WARES1, TRANSLATIONS1);
    let err = data
        .calc_required_fabric_counts(
            &vec![(
                "Microchips".to_string(),
                CountsInput::WaresPerMinute(Rate { num: 36, den: 1 }),
            )],
            &Vec::new(),
            &vec!["Universal".to_string()],
        )
        .unwrap_err();
    assert!(matches!(err, DataError::AllMethodsBlacklisted(w) if w == "microchips"));
}

#[test]
fn reverse_resolution_uses_any_language() {
    let mut data = load_data(WARES1, TRANSLATIONS1);
    data.translations
        .unicode_id_to_item_id_to_translation
        .push((
            "de".to_string(),
            vec![("energycells".to_string(), "Energiezellen".to_string())],
        ));
    let map = data
        .make_translation_to_item_map(&vec!["Energiezellen".to_string()])
        .unwrap();
    assert_eq!(map, vec![("Energiezellen".to_string(), "energycells".to_string())]);
    let missing = data
        .make_translation_to_item_map(&vec!["Nirgendwo".to_string()])
        .unwrap_err();
    assert!(matches!(missing, DataError::ReverseTranslationNotFound(n) if n == "Nirgendwo"));
}

#[test]
fn nested_reference_round_trip() {
    let data = load_data(WARES2, TRANSLATIONS2);
    assert_eq!(
        data.translations.get(&"engine_arg_s_allround_01_mk1".to_string()),
        Some("ARG S All-round Engine Mk1".to_string())
    );
}

#[test]
fn broken_reference_discards_whole_translation() {
    let wares_doc = r##"
<languages>
  <!-- English -->
  <language id="44" name="English" />
</languages>
<wares>
  <production>
    <method id="default" name="{20206,101}" />
  </production>
  <ware id="widget" name="{20201,1}" transport="container">
    <price min="1" max="2" />
    <production time="60" amount="10" method="default" name="{20206,101}" />
  </ware>
</wares>
"##;
    let tr_doc = r##"
<language id="44">
  <page id="20201">
    <t id="1">broken {99999,1} reference</t>
  </page>
  <page id="20206">
    <t id="101">Universal</t>
  </page>
</language>
"##;
    let data = load_data(wares_doc, tr_doc);
    assert_eq!(data.translations.get(&"widget".to_string()), None);
    assert_eq!(
        data.translations.get(&"default".to_string()),
        Some("Universal".to_string())
    );
}

#[test]
fn wares_section_without_production_marker_is_skipped() {
    let wares_doc = r##"
<languages>
  <!-- English -->
  <language id="44" name="English" />
</languages>
<wares>
  <decoy />
</wares>
<wares>
  <production>
    <method id="default" name="{20206,101}" />
  </production>
  <ware id="widget" name="{20201,1}" transport="container">
    <price min="1" max="2" />
    <production time="60" amount="10" method="default" name="{20206,101}" />
  </ware>
</wares>
"##;
    let (wares, _) = Wares::load_wares_translationids_and_productionmethods_from_string(
        wares_doc.to_string(),
        "local".to_string(),
    )
    .unwrap();
    assert_eq!(wares.id_to_dsc.len(), 1);
    assert_eq!(wares.id_to_dsc[0].0, "widget");
}

#[test]
fn duplicate_method_name_is_fatal() {
    let wares_doc = r##"
<languages>
  <!-- English -->
  <language id="44" name="English" />
</languages>
<wares>
  <production>
    <method id="default" name="{20206,101}" />
  </production>
  <ware id="widget" name="{20201,1}" transport="container">
    <price min="1" max="2" />
    <production time="60" amount="10" method="default" name="{20206,101}" />
    <production time="30" amount="5" method="default" name="{20206,101}" />
  </ware>
</wares>
"##;
    let err = Wares::load_wares_translationids_and_productionmethods_from_string(
        wares_doc.to_string(),
        "local".to_string(),
    )
    .unwrap_err();
    assert!(matches!(err, DataError::DuplicateValue(m, _) if m == "default"));
}

#[test]
fn missing_price_attribute_is_fatal() {
    let wares_doc = r##"
<languages>
  <!-- English -->
  <language id="44" name="English" />
</languages>
<wares>
  <production>
    <method id="default" name="{20206,101}" />
  </production>
  <ware id="widget" name="{20201,1}" transport="container">
    <price min="1" />
    <production time="60" amount="10" method="default" name="{20206,101}" />
  </ware>
</wares>
"##;
    let err = Wares::load_wares_translationids_and_productionmethods_from_string(
        wares_doc.to_string(),
        "local".to_string(),
    )
    .unwrap_err();
    assert!(matches!(err, DataError::AttributeNotFound(a, _) if a == "max"));
}

#[test]
fn missing_wares_section_is_reported() {
    let err = Wares::load_wares_translationids_and_productionmethods_from_string(
        "<languages></languages>".to_string(),
        "local".to_string(),
    )
    .unwrap_err();
    assert!(matches!(err, DataError::XmlPartNotFound(p) if p == "wares"));
}

#[test]
fn language_table_collapses_both_chinese_variants() {
    let chars = str_to_chars(WARES1);
    let langs = find_langs(&chars, &"local".to_string()).unwrap();
    let ch: Vec<&(String, String)> = langs.iter().filter(|p| p.0 == "ch").collect();
    assert_eq!(ch.len(), 1);
    assert_eq!(ch[0].1, "86");
    assert!(langs.iter().any(|p| p.0 == "en" && p.1 == "44"));
    assert!(langs.iter().any(|p| p.0 == "jp" && p.1 == "81"));
}

#[test]
fn duplicate_language_code_is_fatal() {
    let doc = r##"
<languages>
  <!-- English -->
  <language id="44" name="English" />
  <!-- English -->
  <language id="45" name="English again" />
</languages>
"##;
    let chars = str_to_chars(doc);
    let err = find_langs(&chars, &"local".to_string()).unwrap_err();
    assert!(matches!(err, DataError::DuplicateValue(code, _) if code == "en"));
}

#[test]
fn missing_languages_section_is_reported() {
    let chars = str_to_chars("<wares><production></production></wares>");
    let err = find_langs(&chars, &"local".to_string()).unwrap_err();
    assert!(matches!(err, DataError::SubstrNotFound(m) if m == "<languages>"));
}

#[test]
fn malformed_sub_document_is_fatal_with_origin() {
    let doc = r##"
<languages>
  <!-- English -->
  <language id="44" name="English" />
</languages>
<wares>
  <production>
  <broken
</wares>
"##;
    let err = Wares::load_wares_translationids_and_productionmethods_from_string(
        doc.to_string(),
        "somewhere".to_string(),
    )
    .unwrap_err();
    assert!(matches!(err, DataError::InvalidXml(origin, _) if origin == "somewhere"));
}

#[test]
fn non_numeric_attribute_is_fatal() {
    let doc = r##"
<languages>
  <!-- English -->
  <language id="44" name="English" />
</languages>
<wares>
  <production>
    <method id="default" name="{20206,101}" />
  </production>
  <ware id="widget" name="{20201,1}" transport="container">
    <price min="cheap" max="2" />
    <production time="60" amount="10" method="default" name="{20206,101}" />
  </ware>
</wares>
"##;
    let err = Wares::load_wares_translationids_and_productionmethods_from_string(
        doc.to_string(),
        "local".to_string(),
    )
    .unwrap_err();
    assert!(matches!(err, DataError::AttributeBadValue(a, _, _) if a == "min"));
}

#[test]
fn missing_price_tag_is_fatal() {
    let doc = r##"
<languages>
  <!-- English -->
  <language id="44" name="English" />
</languages>
<wares>
  <production>
    <method id="default" name="{20206,101}" />
  </production>
  <ware id="widget" name="{20201,1}" transport="container">
    <production time="60" amount="10" method="default" name="{20206,101}" />
  </ware>
</wares>
"##;
    let err = Wares::load_wares_translationids_and_productionmethods_from_string(
        doc.to_string(),
        "local".to_string(),
    )
    .unwrap_err();
    assert!(matches!(err, DataError::TagNotFound(t, _) if t == "price"));
}

#[test]
fn method_without_locator_is_fatal() {
    let doc = r##"
<languages>
  <!-- English -->
  <language id="44" name="English" />
</languages>
<wares>
  <production>
    <method id="default" name="{20206,101}" />
  </production>
  <ware id="widget" name="{20201,1}" transport="container">
    <price min="1" max="2" />
    <production time="60" amount="10" method="default" name="(TEMP)widget" />
  </ware>
</wares>
"##;
    let err = Wares::load_wares_translationids_and_productionmethods_from_string(
        doc.to_string(),
        "local".to_string(),
    )
    .unwrap_err();
    assert!(matches!(err, DataError::AttributeBadValue(a, _, _) if a == "name"));
}

#[test]
fn ware_with_unparseable_locator_is_tolerated() {
    let doc = r##"
<languages>
  <!-- English -->
  <language id="44" name="English" />
</languages>
<wares>
  <production>
    <method id="default" name="{20206,101}" />
  </production>
  <ware id="widget" name="(TEMP)widget" transport="container">
    <price min="1" max="2" />
    <production time="60" amount="10" method="default" name="{20206,101}" />
  </ware>
</wares>
"##;
    let (wares, _) = Wares::load_wares_translationids_and_productionmethods_from_string(
        doc.to_string(),
        "local".to_string(),
    )
    .unwrap();
    assert!(wares.id_to_dsc[0].1.translation.is_none());
}

#[test]
fn unreadable_input_list_degrades_to_no_inputs() {
    // an input entry without an amount attribute is a structural failure of
    // the list; the method loads with zero inputs
    let doc = r##"
<languages>
  <!-- English -->
  <language id="44" name="English" />
</languages>
<wares>
  <production>
    <method id="default" name="{20206,101}" />
  </production>
  <ware id="widget" name="{20201,1}" transport="container">
    <price min="1" max="2" />
    <production time="60" amount="10" method="default" name="{20206,101}">
      <primary>
        <ware ware="a" />
      </primary>
    </production>
  </ware>
</wares>
"##;
    let (wares, _) = Wares::load_wares_translationids_and_productionmethods_from_string(
        doc.to_string(),
        "local".to_string(),
    )
    .unwrap();
    assert!(wares.id_to_dsc[0].1.production_methods[0].1.wares_dependencies.is_empty());
}

#[test]
fn duplicate_input_ware_id_is_fatal() {
    let doc = r##"
<languages>
  <!-- English -->
  <language id="44" name="English" />
</languages>
<wares>
  <production>
    <method id="default" name="{20206,101}" />
  </production>
  <ware id="widget" name="{20201,1}" transport="container">
    <price min="1" max="2" />
    <production time="60" amount="10" method="default" name="{20206,101}">
      <primary>
        <ware ware="a" amount="1" />
        <ware ware="a" amount="2" />
      </primary>
    </production>
  </ware>
</wares>
"##;
    let err = Wares::load_wares_translationids_and_productionmethods_from_string(
        doc.to_string(),
        "local".to_string(),
    )
    .unwrap_err();
    assert!(matches!(err, DataError::DuplicateValue(k, _) if k == "a"));
}

#[test]
fn ware_without_name_attribute_is_tolerated() {
    let doc = r##"
<languages>
  <!-- English -->
  <language id="44" name="English" />
</languages>
<wares>
  <production>
    <method id="default" name="{20206,101}" />
  </production>
  <ware id="widget" transport="container">
    <price min="1" max="2" />
    <production time="60" amount="10" method="default" name="{20206,101}" />
  </ware>
</wares>
"##;
    let (wares, _) = Wares::load_wares_translationids_and_productionmethods_from_string(
        doc.to_string(),
        "local".to_string(),
    )
    .unwrap();
    assert!(wares.id_to_dsc[0].1.translation.is_none());
}

#[test]
fn method_list_is_sorted_by_translation_item_id() {
    let doc = r##"
<languages>
  <!-- English -->
  <language id="44" name="English" />
</languages>
<wares>
  <production>
    <method id="later" name="{20206,300}" />
  </production>
  <ware id="widget" name="{20201,1}" transport="container">
    <price min="1" max="2" />
    <production time="60" amount="10" method="later" name="{20206,300}" />
    <production time="60" amount="10" method="earlier" name="{20206,100}" />
  </ware>
</wares>
"##;
    let (wares, _) = Wares::load_wares_translationids_and_productionmethods_from_string(
        doc.to_string(),
        "local".to_string(),
    )
    .unwrap();
    assert_eq!(
        wares.gen_production_methods_list(),
        vec!["earlier".to_string(), "later".to_string()]
    );
}
